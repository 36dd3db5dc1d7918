//! What holds of the actions that a call asks for, and of their order.

use vstd::prelude::*;

use crate::address::Address;
use crate::call_laws::Call;
use crate::curve_laws;
use crate::host::{Action, Entry, EnvView, Ledger};
use crate::lp_token::{burned, minted, moved};
use crate::math::MINIMUM_LIQUIDITY;
use crate::pool::{
    configured, deposit_paid, deposit_refusal, deposit_settled, deposit_terms, deposited, entered,
    gate, handed_on, is_token_a, left, pool_token, price_in, price_out, reserve_beside, reserve_of,
    swap_paid, swap_settled, swapped, taken_token, turned_away, withdrawal_amounts, withdrawal_paid,
    withdrawal_settled, withdrawn,
};
use crate::pool_laws;
use crate::pool_laws::sound;
use crate::storage::{keep_entry, keep_instance, share_read, share_written, DataKey};

verus! {

/// What was asked for between two moments.
pub open spec fn asked(before: EnvView, after: EnvView) -> Seq<Action> {
    after.actions.skip(before.actions.len() as int)
}

/// Whether the ledger at a later moment is what the actions that were asked for
/// in between make of the ledger at the earlier one.
pub open spec fn follows(before: EnvView, after: EnvView) -> bool {
    &&& after.contract == before.contract
    &&& before.actions.len() <= after.actions.len()
    &&& after.actions.take(before.actions.len() as int) == before.actions
    &&& after.ledger == before.ledger.replay(asked(before, after))
}

/// Whether an action stays on the pool's own ledger.
pub open spec fn internal(action: Action) -> bool {
    !(action is Transfer) && !(action is Publish)
}

/// As [`follows`], with nothing asked for that leaves the pool's own ledger.
spec fn settles(before: EnvView, after: EnvView) -> bool {
    &&& follows(before, after)
    &&& forall|i: int|
        before.actions.len() <= i < after.actions.len() ==> internal(#[trigger] after.actions[i])
}

proof fn lemma_settles_at_once(env: EnvView)
    ensures
        settles(env, env),
{
    assert(asked(env, env) =~= Seq::empty());
    assert(env.actions.take(env.actions.len() as int) =~= env.actions);
}

proof fn lemma_asked_push(before: EnvView, after: EnvView, action: Action)
    requires
        before.actions.len() <= after.actions.len(),
    ensures
        asked(before, after.act(action)) == asked(before, after).push(action),
{
    assert(asked(before, after.act(action)) =~= asked(before, after).push(action));
}

proof fn lemma_follows_act(before: EnvView, after: EnvView, action: Action)
    requires
        follows(before, after),
    ensures
        follows(before, after.act(action)),
{
    lemma_asked_push(before, after, action);
    let so_far = asked(before, after);
    assert(so_far.push(action).drop_last() =~= so_far);
    assert(after.act(action).actions.take(before.actions.len() as int) =~= after.actions.take(
        before.actions.len() as int,
    ));
}

proof fn lemma_settles_act(before: EnvView, after: EnvView, action: Action)
    requires
        settles(before, after),
        internal(action),
    ensures
        settles(before, after.act(action)),
{
    lemma_follows_act(before, after, action);
}

proof fn lemma_settles_entered(before: EnvView, env: EnvView, from: Address)
    requires
        settles(before, env),
    ensures
        settles(before, entered(env, from)),
{
    let taken = Action::Write(Entry::EntryLock(true));
    lemma_settles_act(before, env, taken);
    lemma_settles_act(before, env.act(taken), Action::RequireAuth(from));
}

proof fn lemma_settles_share_read(before: EnvView, env: EnvView, id: Address)
    requires
        settles(before, env),
    ensures
        settles(before, share_read(env, id)),
{
    lemma_settles_act(before, env, keep_entry(DataKey::Share(id)));
}

proof fn lemma_settles_share_written(before: EnvView, env: EnvView, id: Address, amount: i128)
    requires
        settles(before, env),
    ensures
        settles(before, share_written(env, id, amount)),
{
    let write = Action::Write(Entry::Share(id, amount));
    lemma_settles_act(before, env, Action::Remove(DataKey::Share(id)));
    lemma_settles_act(before, env, write);
    lemma_settles_act(before, env.act(write), keep_entry(DataKey::Share(id)));
}

proof fn lemma_settles_minted(before: EnvView, env: EnvView, to: Address, amount: int)
    requires
        settles(before, env),
    ensures
        settles(before, minted(env, to, amount)),
{
    let held = (env.ledger.held(to) + amount) as i128;
    let supply = (env.ledger.supply() + amount) as i128;
    lemma_settles_share_read(before, env, to);
    lemma_settles_share_written(before, share_read(env, to), to, held);
    lemma_settles_act(
        before,
        share_written(share_read(env, to), to, held),
        Action::Write(Entry::TotalShares(supply)),
    );
}

proof fn lemma_settles_burned(before: EnvView, env: EnvView, from: Address, amount: int)
    requires
        settles(before, env),
    ensures
        settles(before, burned(env, from, amount)),
{
    let held = (env.ledger.held(from) - amount) as i128;
    let supply = (env.ledger.supply() - amount) as i128;
    lemma_settles_share_read(before, env, from);
    lemma_settles_share_written(before, share_read(env, from), from, held);
    lemma_settles_act(
        before,
        share_written(share_read(env, from), from, held),
        Action::Write(Entry::TotalShares(supply)),
    );
}

proof fn lemma_settles_moved(
    before: EnvView,
    env: EnvView,
    from: Address,
    to: Address,
    amount: int,
)
    requires
        settles(before, env),
    ensures
        settles(before, moved(env, from, to, amount)),
{
    let left_over = (env.ledger.held(from) - amount) as i128;
    let given = share_written(share_read(env, from), from, left_over);
    let reached = (given.ledger.held(to) + amount) as i128;
    lemma_settles_share_read(before, env, from);
    lemma_settles_share_written(before, share_read(env, from), from, left_over);
    lemma_settles_share_read(before, given, to);
    lemma_settles_share_written(before, share_read(given, to), to, reached);
}

/// The reserves written one after the other, and the instance kept alive.
proof fn lemma_settles_reserves(before: EnvView, env: EnvView, first: Entry, second: Entry)
    requires
        settles(before, env),
    ensures
        settles(
            before,
            env.act(Action::Write(first)).act(Action::Write(second)).act(keep_instance()),
        ),
{
    let one = env.act(Action::Write(first));
    let two = one.act(Action::Write(second));
    lemma_settles_act(before, env, Action::Write(first));
    lemma_settles_act(before, one, Action::Write(second));
    lemma_settles_act(before, two, keep_instance());
}

proof fn lemma_settles_deposit(
    before: EnvView,
    env: EnvView,
    from: Address,
    a: int,
    b: int,
    shares: int,
)
    requires
        settles(before, env),
    ensures
        settles(before, deposit_settled(env, from, a, b, shares)),
{
    let lock_away = Action::Write(Entry::TotalShares(MINIMUM_LIQUIDITY));
    lemma_settles_act(before, env, lock_away);
    let locked_away = if env.ledger.supply() == 0 {
        env.act(lock_away)
    } else {
        env
    };
    lemma_settles_minted(before, locked_away, from, shares);
    lemma_settles_reserves(
        before,
        minted(locked_away, from, shares),
        Entry::ReserveA((env.ledger.pool_a() + a) as i128),
        Entry::ReserveB((env.ledger.pool_b() + b) as i128),
    );
}

proof fn lemma_settles_withdrawal(
    before: EnvView,
    env: EnvView,
    from: Address,
    shares: int,
    a: int,
    b: int,
)
    requires
        settles(before, env),
    ensures
        settles(before, withdrawal_settled(env, from, shares, a, b)),
{
    lemma_settles_burned(before, env, from, shares);
    lemma_settles_reserves(
        before,
        burned(env, from, shares),
        Entry::ReserveA((env.ledger.pool_a() - a) as i128),
        Entry::ReserveB((env.ledger.pool_b() - b) as i128),
    );
}

proof fn lemma_settles_swap(
    before: EnvView,
    env: EnvView,
    takes_a: bool,
    amount_in: int,
    amount_out: int,
)
    requires
        settles(before, env),
    ensures
        settles(before, swap_settled(env, takes_a, amount_in, amount_out)),
{
    if takes_a {
        lemma_settles_reserves(
            before,
            env,
            Entry::ReserveA((env.ledger.pool_a() + amount_in) as i128),
            Entry::ReserveB((env.ledger.pool_b() - amount_out) as i128),
        );
    } else {
        lemma_settles_reserves(
            before,
            env,
            Entry::ReserveB((env.ledger.pool_b() + amount_in) as i128),
            Entry::ReserveA((env.ledger.pool_a() - amount_out) as i128),
        );
    }
}

/// The shape of a call that moves tokens: it settles the ledger, has two
/// transfers made, reports an event and gives the lock back.
spec fn pays(
    before: EnvView,
    settled: EnvView,
    first: Action,
    second: Action,
    report: Action,
    after: EnvView,
) -> bool {
    &&& settles(before, settled)
    &&& first is Transfer
    &&& second is Transfer
    &&& report is Publish
    &&& after == left(settled.act(first).act(second).act(report))
}

proof fn lemma_deposit_pays(env: EnvView, from: Address, a: int, b: int, shares: int)
    ensures
        ({
            let settled = deposit_settled(entered(env, from), from, a, b, shares);
            let paid = deposit_paid(settled, from, a, b, shares);
            &&& settled.contract == env.contract
            &&& settled.ledger.entry_lock == Some(true)
            &&& follows(entered(env, from), settled)
            &&& pays(
                env,
                settled,
                Action::Transfer {
                    token: env.ledger.token_a->0,
                    from,
                    to: env.contract,
                    amount: a as i128,
                },
                Action::Transfer {
                    token: env.ledger.token_b->0,
                    from,
                    to: env.contract,
                    amount: b as i128,
                },
                paid.actions.last(),
                deposited(env, from, a, b, shares),
            )
        }),
{
    lemma_settles_at_once(env);
    lemma_settles_entered(env, env, from);
    lemma_settles_deposit(env, entered(env, from), from, a, b, shares);
    lemma_settles_at_once(entered(env, from));
    lemma_settles_deposit(entered(env, from), entered(env, from), from, a, b, shares);
}

proof fn lemma_withdrawal_pays(env: EnvView, from: Address, shares: int, a: int, b: int)
    ensures
        ({
            let settled = withdrawal_settled(entered(env, from), from, shares, a, b);
            let paid = withdrawal_paid(settled, from, shares, a, b);
            &&& settled.contract == env.contract
            &&& settled.ledger.entry_lock == Some(true)
            &&& follows(entered(env, from), settled)
            &&& pays(
                env,
                settled,
                Action::Transfer {
                    token: env.ledger.token_a->0,
                    from: env.contract,
                    to: from,
                    amount: a as i128,
                },
                Action::Transfer {
                    token: env.ledger.token_b->0,
                    from: env.contract,
                    to: from,
                    amount: b as i128,
                },
                paid.actions.last(),
                withdrawn(env, from, shares, a, b),
            )
        }),
{
    lemma_settles_at_once(env);
    lemma_settles_entered(env, env, from);
    lemma_settles_withdrawal(env, entered(env, from), from, shares, a, b);
    lemma_settles_at_once(entered(env, from));
    lemma_settles_withdrawal(entered(env, from), entered(env, from), from, shares, a, b);
}

proof fn lemma_swap_pays(
    env: EnvView,
    from: Address,
    takes_a: bool,
    amount_in: int,
    amount_out: int,
    to: Address,
)
    ensures
        ({
            let settled = swap_settled(entered(env, from), takes_a, amount_in, amount_out);
            let paid = swap_paid(settled, from, takes_a, amount_in, amount_out, to);
            &&& settled.contract == env.contract
            &&& settled.ledger.entry_lock == Some(true)
            &&& follows(entered(env, from), settled)
            &&& pays(
                env,
                settled,
                Action::Transfer {
                    token: taken_token(env.ledger, takes_a),
                    from,
                    to: env.contract,
                    amount: amount_in as i128,
                },
                Action::Transfer {
                    token: taken_token(env.ledger, !takes_a),
                    from: env.contract,
                    to,
                    amount: amount_out as i128,
                },
                paid.actions.last(),
                swapped(env, from, takes_a, amount_in, amount_out, to),
            )
        }),
{
    lemma_settles_at_once(env);
    lemma_settles_entered(env, env, from);
    lemma_settles_swap(env, entered(env, from), takes_a, amount_in, amount_out);
    lemma_settles_at_once(entered(env, from));
    lemma_settles_swap(entered(env, from), entered(env, from), takes_a, amount_in, amount_out);
}

/// Whether a call has tokens moved when it is not refused.
pub open spec fn moves_tokens(call: Call) -> bool {
    call is AddLiquidity || call is RemoveLiquidity || call.is_swap()
}

/// The two transfers that a call has made, in their order: first what the
/// caller pays, if the caller pays anything.
pub open spec fn transfers(env: EnvView, call: Call) -> Seq<Action> {
    let pool = env.contract;
    let token_a = env.ledger.token_a->0;
    let token_b = env.ledger.token_b->0;
    match call {
        Call::AddLiquidity { from, desired_a, desired_b, .. } => {
            let (a, b, _) = deposit_terms(env.ledger, desired_a, desired_b);
            seq![
                Action::Transfer { token: token_a, from, to: pool, amount: a as i128 },
                Action::Transfer { token: token_b, from, to: pool, amount: b as i128 },
            ]
        },
        Call::RemoveLiquidity { from, shares, .. } => {
            let (a, b) = withdrawal_amounts(env.ledger, shares);
            seq![
                Action::Transfer { token: token_a, from: pool, to: from, amount: a as i128 },
                Action::Transfer { token: token_b, from: pool, to: from, amount: b as i128 },
            ]
        },
        Call::SwapExactIn { from, token_in, amount_in, to, .. } => {
            let takes_a = is_token_a(env.ledger, token_in);
            let amount_out = price_out(env.ledger, token_in, amount_in);
            seq![
                Action::Transfer {
                    token: taken_token(env.ledger, takes_a),
                    from,
                    to: pool,
                    amount: amount_in as i128,
                },
                Action::Transfer {
                    token: taken_token(env.ledger, !takes_a),
                    from: pool,
                    to,
                    amount: amount_out as i128,
                },
            ]
        },
        Call::SwapExactOut { from, token_out, amount_out, to, .. } => {
            let takes_a = !is_token_a(env.ledger, token_out);
            let amount_in = price_in(env.ledger, token_out, amount_out);
            seq![
                Action::Transfer {
                    token: taken_token(env.ledger, takes_a),
                    from,
                    to: pool,
                    amount: amount_in as i128,
                },
                Action::Transfer {
                    token: taken_token(env.ledger, !takes_a),
                    from: pool,
                    to,
                    amount: amount_out as i128,
                },
            ]
        },
        _ => Seq::empty(),
    }
}

/// How a call that moves tokens comes about: returns the state in which its
/// effects are settled, and the event that it reports with.
proof fn lemma_call_pays(env: EnvView, call: Call) -> (found: (EnvView, Action))
    requires
        moves_tokens(call),
        call.refusal(env.ledger) is None,
    ensures
        pays(
            env,
            found.0,
            transfers(env, call)[0],
            transfers(env, call)[1],
            found.1,
            call.outcome(env),
        ),
        found.0.contract == env.contract,
        found.0.ledger.entry_lock == Some(true),
        follows(entered(env, call.caller()->0), found.0),
{
    match call {
        Call::AddLiquidity { from, desired_a, desired_b, .. } => {
            let (a, b, shares) = deposit_terms(env.ledger, desired_a, desired_b);
            let settled = deposit_settled(entered(env, from), from, a, b, shares);
            assert(call.outcome(env) == deposited(env, from, a, b, shares)) by {
                reveal(Call::outcome);
            }
            lemma_deposit_pays(env, from, a, b, shares);
            (settled, deposit_paid(settled, from, a, b, shares).actions.last())
        },
        Call::RemoveLiquidity { from, shares, .. } => {
            let (a, b) = withdrawal_amounts(env.ledger, shares);
            let settled = withdrawal_settled(entered(env, from), from, shares, a, b);
            assert(call.outcome(env) == withdrawn(env, from, shares, a, b)) by {
                reveal(Call::outcome);
            }
            lemma_withdrawal_pays(env, from, shares, a, b);
            (settled, withdrawal_paid(settled, from, shares, a, b).actions.last())
        },
        Call::SwapExactIn { from, token_in, amount_in, to, .. } => {
            let takes_a = is_token_a(env.ledger, token_in);
            let amount_out = price_out(env.ledger, token_in, amount_in);
            let settled = swap_settled(entered(env, from), takes_a, amount_in, amount_out);
            assert(call.outcome(env) == swapped(env, from, takes_a, amount_in, amount_out, to)) by {
                reveal(Call::outcome);
            }
            lemma_swap_pays(env, from, takes_a, amount_in, amount_out, to);
            (settled, swap_paid(settled, from, takes_a, amount_in, amount_out, to).actions.last())
        },
        Call::SwapExactOut { from, token_out, amount_out, to, .. } => {
            let takes_a = !is_token_a(env.ledger, token_out);
            let amount_in = price_in(env.ledger, token_out, amount_out);
            let settled = swap_settled(entered(env, from), takes_a, amount_in, amount_out);
            assert(call.outcome(env) == swapped(env, from, takes_a, amount_in, amount_out, to)) by {
                reveal(Call::outcome);
            }
            lemma_swap_pays(env, from, takes_a, amount_in, amount_out, to);
            (settled, swap_paid(settled, from, takes_a, amount_in, amount_out, to).actions.last())
        },
        _ => (env, Action::RequireAuth(env.contract)),
    }
}

proof fn lemma_pays_follows(
    before: EnvView,
    settled: EnvView,
    first: Action,
    second: Action,
    report: Action,
    after: EnvView,
)
    requires
        follows(before, settled),
        after == left(settled.act(first).act(second).act(report)),
    ensures
        follows(before, after),
{
    lemma_follows_act(before, settled, first);
    lemma_follows_act(before, settled.act(first), second);
    lemma_follows_act(before, settled.act(first).act(second), report);
    lemma_follows_act(
        before,
        settled.act(first).act(second).act(report),
        Action::Write(Entry::EntryLock(false)),
    );
}

/// Carried out in order, the actions of a call turn the ledger that the call
/// found into the one that it leaves: the host ends up with the state that the
/// pool has reckoned with.
pub proof fn law_actions_make_the_ledger(env: EnvView, call: Call)
    ensures
        follows(env, call.outcome(env)),
{
    lemma_settles_at_once(env);
    lemma_other_outcomes(env, call);
    if call.refusal(env.ledger) is Some {
        if call.caller() is Some {
            lemma_follows_act(env, env, Action::RequireAuth(call.caller()->0));
        }
    } else if moves_tokens(call) {
        let (settled, report) = lemma_call_pays(env, call);
        let first = transfers(env, call)[0];
        let second = transfers(env, call)[1];
        lemma_pays_follows(env, settled, first, second, report, call.outcome(env));
    } else {
        match call {
            Call::Initialize { token_a, token_b } => {
                lemma_configured_follows(env, token_a, token_b);
            },
            Call::TransferShares { from, to, amount } => {
                lemma_handed_on_settles(env, env, from, to, amount);
            },
            _ => {},
        }
    }
}

/// What a call leaves that moves no tokens.
proof fn lemma_other_outcomes(env: EnvView, call: Call)
    ensures
        call.refusal(env.ledger) is Some ==> call.outcome(env) == match call.caller() {
            Some(from) => turned_away(env, from),
            None => env,
        },
        call.refusal(env.ledger) is None ==> match call {
            Call::Initialize { token_a, token_b } => call.outcome(env) == configured(
                env,
                token_a,
                token_b,
            ),
            Call::TransferShares { from, to, amount } => call.outcome(env) == handed_on(
                env,
                from,
                to,
                amount,
            ),
            _ => true,
        },
        call.caller() is Some && gate(env.ledger) is Some ==> call.refusal(env.ledger) is Some,
{
    reveal(Call::outcome);
    reveal(Call::refusal);
}

proof fn lemma_configured_follows(env: EnvView, token_a: Address, token_b: Address)
    ensures
        follows(env, configured(env, token_a, token_b)),
        forall|i: int|
            env.actions.len() <= i < configured(env, token_a, token_b).actions.len() ==> !((
            #[trigger] configured(env, token_a, token_b).actions[i]) is Transfer),
{
    let e1 = env.act(Action::Write(Entry::TokenA(token_a)));
    let e2 = e1.act(Action::Write(Entry::TokenB(token_b)));
    let e4 = e2.act(Action::Write(Entry::ReserveA(0))).act(Action::Write(Entry::ReserveB(0)));
    let e5 = e4.act(Action::Write(Entry::TotalShares(0)));
    let e6 = e5.act(keep_instance());
    lemma_settles_at_once(env);
    lemma_settles_act(env, env, Action::Write(Entry::TokenA(token_a)));
    lemma_settles_act(env, e1, Action::Write(Entry::TokenB(token_b)));
    lemma_settles_act(env, e2, Action::Write(Entry::ReserveA(0)));
    lemma_settles_act(
        env,
        e2.act(Action::Write(Entry::ReserveA(0))),
        Action::Write(Entry::ReserveB(0)),
    );
    lemma_settles_act(env, e4, Action::Write(Entry::TotalShares(0)));
    lemma_settles_act(env, e5, keep_instance());
    let event = configured(env, token_a, token_b).actions.last();
    assert(configured(env, token_a, token_b) == e6.act(event));
    lemma_follows_act(env, e6, event);
}

proof fn lemma_handed_on_settles(
    before: EnvView,
    env: EnvView,
    from: Address,
    to: Address,
    amount: int,
)
    requires
        settles(before, env),
    ensures
        settles(before, handed_on(env, from, to, amount)),
        follows(entered(env, from), handed_on(env, from, to, amount)),
{
    let start = entered(env, from);
    let end = moved(start, from, to, amount);
    lemma_settles_entered(before, env, from);
    lemma_settles_moved(before, start, from, to, amount);
    lemma_settles_act(before, end, keep_instance());
    lemma_settles_act(
        before,
        end.act(keep_instance()),
        Action::Write(Entry::EntryLock(false)),
    );
    lemma_settles_at_once(start);
    lemma_settles_moved(start, start, from, to, amount);
    lemma_settles_act(start, end, keep_instance());
    lemma_settles_act(start, end.act(keep_instance()), Action::Write(Entry::EntryLock(false)));
}

/// Effects come before interactions. Whenever a token contract runs, the ledger
/// already is what the call will leave, but for the lock, which is held. So a
/// token contract that calls back finds nothing out of date, and is refused.
pub proof fn law_effects_precede_interactions(env: EnvView, call: Call, at: int)
    requires
        0 <= at < asked(env, call.outcome(env)).len(),
        asked(env, call.outcome(env))[at] is Transfer,
    ensures
        env.ledger.replay(asked(env, call.outcome(env)).take(at)) == (Ledger {
            entry_lock: Some(true),
            ..call.outcome(env).ledger
        }),
{
    let after = call.outcome(env);
    let all = asked(env, after);
    lemma_settles_at_once(env);
    lemma_other_outcomes(env, call);
    law_actions_make_the_ledger(env, call);
    assert(all[at] == after.actions[env.actions.len() + at]);
    if call.refusal(env.ledger) is Some {
        assert(false);
    } else if moves_tokens(call) {
        let (settled, report) = lemma_call_pays(env, call);
        let first = transfers(env, call)[0];
        let second = transfers(env, call)[1];
        let done = asked(env, settled);
        let e1 = settled.act(first);
        let e2 = e1.act(second);
        let e3 = e2.act(report);
        lemma_asked_push(env, settled, first);
        lemma_asked_push(env, e1, second);
        lemma_asked_push(env, e2, report);
        lemma_asked_push(env, e3, Action::Write(Entry::EntryLock(false)));
        assert(all == done.push(first).push(second).push(report).push(
            Action::Write(Entry::EntryLock(false)),
        ));
        if at < done.len() {
            assert(all[at] == done[at]);
            assert(done[at] == settled.actions[env.actions.len() + at]);
            assert(false);
        } else if at == done.len() {
            assert(all.take(at) =~= done);
        } else if at == done.len() + 1 {
            assert(all.take(at) =~= done.push(first));
            assert(done.push(first).drop_last() =~= done);
        } else {
            assert(false);
        }
    } else {
        match call {
            Call::Initialize { token_a, token_b } => {
                lemma_configured_follows(env, token_a, token_b);
                assert(false);
            },
            Call::TransferShares { from, to, amount } => {
                lemma_handed_on_settles(env, env, from, to, amount);
                assert(false);
            },
            _ => {},
        }
    }
}

/// A guarded call starts by taking the lock and demanding its caller's
/// authorization, and ends by giving the lock back. One that is refused past
/// the door has demanded the authorization and nothing else.
pub proof fn law_authorization_comes_first(env: EnvView, call: Call, from: Address)
    requires
        call.caller() == Some(from),
    ensures
        ({
            let all = asked(env, call.outcome(env));
            if gate(env.ledger) is Some {
                all == Seq::<Action>::empty()
            } else if call.refusal(env.ledger) is Some {
                all == seq![Action::RequireAuth(from)]
            } else {
                &&& all.len() >= 3
                &&& all[0] == Action::Write(Entry::EntryLock(true))
                &&& all[1] == Action::RequireAuth(from)
                &&& all.last() == Action::Write(Entry::EntryLock(false))
            }
        }),
{
    let after = call.outcome(env);
    let all = asked(env, after);
    lemma_settles_at_once(env);
    lemma_other_outcomes(env, call);
    if gate(env.ledger) is Some {
        assert(call.refusal(env.ledger) is Some);
        assert(all =~= Seq::empty());
    } else if call.refusal(env.ledger) is Some {
        assert(all =~= seq![Action::RequireAuth(from)]);
    } else {
        let start = entered(env, from);
        if moves_tokens(call) {
            let (settled, report) = lemma_call_pays(env, call);
            let first = transfers(env, call)[0];
        let second = transfers(env, call)[1];
            lemma_pays_follows(start, settled, first, second, report, after);
        } else {
            match call {
                Call::TransferShares { to, amount, .. } => {
                    lemma_handed_on_settles(env, env, from, to, amount);
                },
                _ => {},
            }
        }
        let n = env.actions.len() as int;
        assert(after.actions.take(start.actions.len() as int) == start.actions);
        assert(after.actions[n] == after.actions.take(n + 2)[n]);
        assert(after.actions[n + 1] == after.actions.take(n + 2)[n + 1]);
        assert(after.actions.last() == Action::Write(Entry::EntryLock(false)));
        assert(all.last() == after.actions.last());
    }
}

/// Every transfer that a call has made is one of the two that it stands for.
proof fn lemma_only_stated_transfers(env: EnvView, call: Call, at: int)
    requires
        0 <= at < asked(env, call.outcome(env)).len(),
        asked(env, call.outcome(env))[at] is Transfer,
    ensures
        moves_tokens(call),
        call.refusal(env.ledger) is None,
        asked(env, call.outcome(env))[at] == transfers(env, call)[0] || asked(
            env,
            call.outcome(env),
        )[at] == transfers(env, call)[1],
{
    let after = call.outcome(env);
    let all = asked(env, after);
    lemma_settles_at_once(env);
    lemma_other_outcomes(env, call);
    law_actions_make_the_ledger(env, call);
    assert(all[at] == after.actions[env.actions.len() + at]);
    if call.refusal(env.ledger) is Some {
    } else if moves_tokens(call) {
        let (settled, report) = lemma_call_pays(env, call);
        let n = settled.actions.len() as int;
        if env.actions.len() + at < n {
            assert(all[at] == settled.actions[env.actions.len() + at]);
        }
    } else {
        match call {
            Call::Initialize { token_a, token_b } => {
                lemma_configured_follows(env, token_a, token_b);
            },
            Call::TransferShares { from, to, amount } => {
                lemma_handed_on_settles(env, env, from, to, amount);
            },
            _ => {},
        }
    }
}

/// A call spends nobody's tokens but its caller's and the pool's own, and only
/// the pool's two tokens.
pub proof fn law_only_caller_and_pool_pay(env: EnvView, call: Call, at: int)
    requires
        0 <= at < asked(env, call.outcome(env)).len(),
    ensures
        asked(env, call.outcome(env))[at] matches Action::Transfer { token, from, .. } ==> {
            &&& from == env.contract || Some(from) == call.caller()
            &&& token == env.ledger.token_a->0 || token == env.ledger.token_b->0
        },
{
    if asked(env, call.outcome(env))[at] is Transfer {
        lemma_only_stated_transfers(env, call, at);
    }
}

/// What an action brings to `holder` of `token`.
pub open spec fn brings(action: Action, token: Address, holder: Address) -> int {
    match action {
        Action::Transfer { token: moved, from, to, amount } => if moved == token {
            (if to == holder {
                amount as int
            } else {
                0
            }) - (if from == holder {
                amount as int
            } else {
                0
            })
        } else {
            0
        },
        _ => 0,
    }
}

/// What a series of actions brings to `holder` of `token`.
pub open spec fn inflow(actions: Seq<Action>, token: Address, holder: Address) -> int
    decreases actions.len(),
{
    if actions.len() == 0 {
        0
    } else {
        inflow(actions.drop_last(), token, holder) + brings(actions.last(), token, holder)
    }
}

proof fn lemma_inflow_push(actions: Seq<Action>, action: Action, token: Address, holder: Address)
    ensures
        inflow(actions.push(action), token, holder) == inflow(actions, token, holder) + brings(
            action,
            token,
            holder,
        ),
{
    assert(actions.push(action).drop_last() =~= actions);
}

proof fn lemma_no_inflow_without_transfer(actions: Seq<Action>, token: Address, holder: Address)
    requires
        forall|i: int| 0 <= i < actions.len() ==> !((#[trigger] actions[i]) is Transfer),
    ensures
        inflow(actions, token, holder) == 0,
    decreases actions.len(),
{
    if actions.len() > 0 {
        let front = actions.drop_last();
        assert forall|i: int| 0 <= i < front.len() implies !((#[trigger] front[i]) is Transfer) by {
            assert(front[i] == actions[i]);
        }
        lemma_no_inflow_without_transfer(front, token, holder);
    }
}

proof fn lemma_inflow_of_call(env: EnvView, call: Call, token: Address)
    ensures
        inflow(asked(env, call.outcome(env)), token, env.contract) == if moves_tokens(call)
            && call.refusal(env.ledger) is None {
            brings(transfers(env, call)[0], token, env.contract) + brings(
                transfers(env, call)[1],
                token,
                env.contract,
            )
        } else {
            0
        },
{
    let after = call.outcome(env);
    let all = asked(env, after);
    let pool = env.contract;
    if moves_tokens(call) && call.refusal(env.ledger) is None {
        let (settled, report) = lemma_call_pays(env, call);
        let first = transfers(env, call)[0];
        let second = transfers(env, call)[1];
        let release = Action::Write(Entry::EntryLock(false));
        let e1 = settled.act(first);
        let e2 = e1.act(second);
        let e3 = e2.act(report);
        let done = asked(env, settled);
        lemma_asked_push(env, settled, first);
        lemma_asked_push(env, e1, second);
        lemma_asked_push(env, e2, report);
        lemma_asked_push(env, e3, release);
        assert forall|i: int| 0 <= i < done.len() implies !((#[trigger] done[i]) is Transfer) by {
            assert(done[i] == settled.actions[env.actions.len() + i]);
        }
        lemma_no_inflow_without_transfer(done, token, pool);
        lemma_inflow_push(done, first, token, pool);
        lemma_inflow_push(done.push(first), second, token, pool);
        lemma_inflow_push(done.push(first).push(second), report, token, pool);
        lemma_inflow_push(done.push(first).push(second).push(report), release, token, pool);
    } else {
        assert forall|i: int| 0 <= i < all.len() implies !((#[trigger] all[i]) is Transfer) by {
            if all[i] is Transfer {
                lemma_only_stated_transfers(env, call, i);
            }
        }
        lemma_no_inflow_without_transfer(all, token, pool);
    }
}

/// The reserves are backed by tokens. If a call's transfers are made, the pool
/// receives of each token at least what the call adds to its reserve, so that
/// it never owes more than it holds. It receives exactly as much unless a swap
/// pays out to the pool itself. The caller must be someone else than the pool,
/// which cannot pay itself.
pub proof fn law_reserves_are_backed(env: EnvView, call: Call)
    requires
        sound(env.ledger),
        env.ledger.initialized(),
        call.caller() != Some(env.contract),
    ensures
        ({
            let after = call.outcome(env);
            let token_a = env.ledger.token_a->0;
            let token_b = env.ledger.token_b->0;
            &&& after.ledger.pool_a() - env.ledger.pool_a() <= inflow(
                asked(env, after),
                token_a,
                env.contract,
            )
            &&& after.ledger.pool_b() - env.ledger.pool_b() <= inflow(
                asked(env, after),
                token_b,
                env.contract,
            )
            &&& call.recipient() != Some(env.contract) ==> {
                &&& after.ledger.pool_a() - env.ledger.pool_a() == inflow(
                    asked(env, after),
                    token_a,
                    env.contract,
                )
                &&& after.ledger.pool_b() - env.ledger.pool_b() == inflow(
                    asked(env, after),
                    token_b,
                    env.contract,
                )
            }
        }),
{
    let ledger = env.ledger;
    lemma_inflow_of_call(env, call, ledger.token_a->0);
    lemma_inflow_of_call(env, call, ledger.token_b->0);
    lemma_reserve_changes(env, call);
    assert(ledger.token_a->0 != ledger.token_b->0);
    if call.refusal(ledger) is None {
        match call {
            Call::SwapExactIn { token_in, .. } => {
                assert(taken_token(ledger, is_token_a(ledger, token_in)) == token_in);
            },
            Call::SwapExactOut { token_out, .. } => {
                assert(taken_token(ledger, is_token_a(ledger, token_out)) == token_out);
            },
            _ => {},
        }
    }
}

/// What a call makes of the reserves.
proof fn lemma_reserve_changes(env: EnvView, call: Call)
    requires
        sound(env.ledger),
        env.ledger.initialized(),
    ensures
        ({
            let ledger = env.ledger;
            let after = call.outcome(env).ledger;
            if call.refusal(ledger) is Some {
                after == ledger
            } else {
                match call {
                    Call::Initialize { .. } => false,
                    Call::AddLiquidity { desired_a, desired_b, .. } => {
                        let (a, b, shares) = deposit_terms(ledger, desired_a, desired_b);
                        &&& after.pool_a() == ledger.pool_a() + a
                        &&& after.pool_b() == ledger.pool_b() + b
                        &&& 0 <= a <= i128::MAX
                        &&& 0 <= b <= i128::MAX
                    },
                    Call::RemoveLiquidity { shares, .. } => {
                        let (a, b) = withdrawal_amounts(ledger, shares);
                        &&& after.pool_a() == ledger.pool_a() - a
                        &&& after.pool_b() == ledger.pool_b() - b
                        &&& 0 < a <= i128::MAX
                        &&& 0 < b <= i128::MAX
                    },
                    Call::SwapExactIn { token_in, amount_in, .. } => {
                        let amount_out = price_out(ledger, token_in, amount_in);
                        &&& pool_token(ledger, token_in)
                        &&& 0 < amount_in <= i128::MAX
                        &&& 0 < amount_out <= i128::MAX
                        &&& reserve_of(after, token_in) == reserve_of(ledger, token_in) + amount_in
                        &&& reserve_beside(after, token_in) == reserve_beside(ledger, token_in)
                            - amount_out
                        &&& after.token_a == ledger.token_a
                        &&& after.token_b == ledger.token_b
                    },
                    Call::SwapExactOut { token_out, amount_out, .. } => {
                        let amount_in = price_in(ledger, token_out, amount_out);
                        &&& pool_token(ledger, token_out)
                        &&& 0 < amount_in <= i128::MAX
                        &&& 0 < amount_out <= i128::MAX
                        &&& reserve_beside(after, token_out) == reserve_beside(ledger, token_out)
                            + amount_in
                        &&& reserve_of(after, token_out) == reserve_of(ledger, token_out)
                            - amount_out
                        &&& after.token_a == ledger.token_a
                        &&& after.token_b == ledger.token_b
                    },
                    Call::TransferShares { .. } => {
                        after.pool_a() == ledger.pool_a() && after.pool_b() == ledger.pool_b()
                    },
                }
            }
        }),
{
    reveal(Call::refusal);
    let ledger = env.ledger;
    lemma_other_outcomes(env, call);
    if call.refusal(ledger) is None {
        match call {
            Call::AddLiquidity { from, desired_a, desired_b, min_a, min_b } => {
                let (a, b, shares) = deposit_terms(ledger, desired_a, desired_b);
                lemma_deposit_amounts_fit(ledger, from, desired_a, desired_b, min_a, min_b);
                assert(call.outcome(env) == deposited(env, from, a, b, shares)) by {
                    reveal(Call::outcome);
                }
            },
            Call::RemoveLiquidity { from, shares, .. } => {
                let (a, b) = withdrawal_amounts(ledger, shares);
                assert(call.outcome(env) == withdrawn(env, from, shares, a, b)) by {
                    reveal(Call::outcome);
                }
            },
            Call::SwapExactIn { from, token_in, amount_in, to, .. } => {
                let takes_a = is_token_a(ledger, token_in);
                let amount_out = price_out(ledger, token_in, amount_in);
                assert(call.outcome(env) == swapped(env, from, takes_a, amount_in, amount_out, to))
                    by {
                    reveal(Call::outcome);
                }
            },
            Call::SwapExactOut { from, token_out, amount_out, to, .. } => {
                let takes_a = !is_token_a(ledger, token_out);
                let amount_in = price_in(ledger, token_out, amount_out);
                pool_laws::lemma_price_in_fits(ledger, token_out, amount_out);
                assert(call.outcome(env) == swapped(env, from, takes_a, amount_in, amount_out, to))
                    by {
                    reveal(Call::outcome);
                }
            },
            _ => {},
        }
    }
}

proof fn lemma_deposit_amounts_fit(
    ledger: Ledger,
    from: Address,
    desired_a: int,
    desired_b: int,
    min_a: int,
    min_b: int,
)
    requires
        sound(ledger),
        deposit_refusal(ledger, from, desired_a, desired_b, min_a, min_b) is None,
    ensures
        ({
            let (a, b, _) = deposit_terms(ledger, desired_a, desired_b);
            0 <= a <= i128::MAX && 0 <= b <= i128::MAX
        }),
{
    if ledger.supply() != 0 {
        curve_laws::law_deposit_keeps_the_price(
            ledger.pool_a() as int,
            ledger.pool_b() as int,
            desired_a,
            desired_b,
            min_a,
            min_b,
        );
    }
}

} // verus!
