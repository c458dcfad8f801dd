use vstd::prelude::*;
use crate::ast::{lemma_required_at_most_one, ExprModel, StatementModel};
use crate::interpreter::{
    active_flags, delivered, eval, exec_statement, is_done, loaded, lookup_from, next_statement,
    lemma_eval_slot_independent, round, run_rounds, settled, settled_slot, step, steps_from, with_queue, with_slot, ActorModel,
    ActorState, ErrorModel, SlotModel, ValueModel, VmModel,
};

verus! {

/// No actor other than the root is active or waiting to join.
pub open spec fn quiescent(w: VmModel) -> bool {
    forall|i: int| 1 <= i < w.slots.len() ==> #[trigger] w.slots[i].state != ActorState::Active
        && w.slots[i].state != ActorState::Staged
}

/// An expression that spawns nothing and that the root can evaluate without error.
pub open spec fn plain_expr_succeeds(w: VmModel, e: ExprModel) -> bool {
    match e {
        ExprModel::Var(x) => lookup_from(w.envs, w.root().env as int, x) is Some,
        ExprModel::Block(_) => true,
        ExprModel::Symbol(_) => true,
        ExprModel::Root => true,
        ExprModel::Receive => w.root().queue.len() > 0,
        ExprModel::Spawn(_) => false,
    }
}

/// A statement that neither sends nor spawns and that the root can execute without
/// error.
pub open spec fn plain_statement(w: VmModel, s: StatementModel) -> bool {
    match s {
        StatementModel::Bind(_, e) => plain_expr_succeeds(w, e),
        StatementModel::Expr(e) => plain_expr_succeeds(w, e),
        StatementModel::Send(_, _) => false,
    }
}

proof fn lemma_steps_none(w: VmModel, flags: Seq<bool>, i: nat)
    requires
        forall|j: int| i <= j < flags.len() ==> !#[trigger] flags[j],
    ensures
        steps_from(w, flags, i) == (w, Ok::<(), ErrorModel>(())),
    decreases flags.len() - i,
{
    if i < flags.len() {
        lemma_steps_none(w, flags, i + 1);
    }
}

/// A statement without `Spawn` or `Send` that the root can execute without error
/// runs to completion in the first round: the run succeeds and the root has executed
/// it exactly once.
pub proof fn law_plain_statement_completes(w: VmModel, s: StatementModel, n: nat)
    requires
        w.wf(),
        quiescent(w),
        plain_statement(w, s),
        n >= 1,
    ensures
        run_rounds(loaded(w, s), n).1 == Ok::<bool, ErrorModel>(true),
        run_rounds(loaded(w, s), n).0.root().position == 1,
        run_rounds(loaded(w, s), n).0.root().code == seq![s],
{
    let w0 = loaded(w, s);
    assert(w0.slots[0].state == ActorState::Active);
    assert(!is_done(w0));
    let flags = active_flags(w0);
    assert forall|j: int| 1 <= j < flags.len() implies !#[trigger] flags[j] by {
        assert(w0.slots[j] == w.slots[j]);
    }
    let a = w0.slots[0].actor;
    assert(next_statement(a) == s);
    let (a1, w1, r) = exec_statement(a, w0, s);
    assert(r == Ok::<Option<(u64, ValueModel)>, ErrorModel>(None));
    assert(a1.position == 1);
    assert(w1.slots == w0.slots);
    let w2 = step(w0, 0).0;
    assert(step(w0, 0).1 == Ok::<(), ErrorModel>(()));
    assert(w2.slots.len() == w0.slots.len());
    lemma_steps_none(w2, flags, 1);
    assert(steps_from(w0, flags, 0) == (w2, Ok::<(), ErrorModel>(())));
    let w3 = settled(w2);
    assert(round(w0) == (w3, Ok::<(), ErrorModel>(())));
    assert(w3.slots[0] == settled_slot(0, w2.slots[0]));
    assert(w3.slots[0].actor.is_completed());
    assert forall|i: int| 0 <= i < w3.slots.len() && #[trigger] w3.slots[i].state == ActorState::Active
        implies i == 0 && w3.slots[0].actor.is_completed() by {
        if i != 0 {
            assert(w3.slots[i] == settled_slot(i, w2.slots[i]));
            assert(w2.slots[i] == w.slots[i]);
        }
    }
    assert(is_done(w3));
    assert(w3.root().is_completed());
    assert(run_rounds(w3, (n - 1) as nat) == (w3, Ok::<bool, ErrorModel>(true)));
    assert(w3.root().code == seq![s]);
}

proof fn lemma_exec_statement_shape(a: ActorModel, w: VmModel, s: StatementModel, h: int)
    requires
        0 <= h < w.slots.len(),
    ensures
        exec_statement(a, w, s).1.slots.len() >= w.slots.len(),
        exec_statement(a, w, s).2 is Ok ==> exec_statement(a, w, s).0.position == a.position + 1,
        exec_statement(a, w, s).2 is Err ==> exec_statement(a, w, s).0.position == a.position,
        exec_statement(a, w, s).0.code == a.code,
{
    match s {
        StatementModel::Bind(_, e) => lemma_eval_slot_independent(a.env, a.queue, w, e, h, w.slots[h]),
        StatementModel::Expr(e) => lemma_eval_slot_independent(a.env, a.queue, w, e, h, w.slots[h]),
        StatementModel::Send(t, e) => {
            lemma_eval_slot_independent(a.env, a.queue, w, t, h, w.slots[h]);
            let (q1, w1, r1) = eval(a.env, a.queue, w, t);
            lemma_eval_slot_independent(a.env, q1, w1, e, h, w1.slots[h]);
        },
    }
}

/// The actor with handle `h` is active and has a next statement.
pub open spec fn steppable(w: VmModel, h: nat) -> bool {
    h < w.slots.len() && w.slots[h as int].state == ActorState::Active
        && !w.slots[h as int].actor.is_completed()
}

/// A `Send` whose target evaluates to a value that is not an actor handle (and whose
/// message evaluates) fails with `SendToNonActor`, and the sending actor does not
/// move past that statement.
pub proof fn law_send_to_non_actor(w: VmModel, h: nat, t: ExprModel, e: ExprModel)
    requires
        steppable(w, h),
        next_statement(w.slots[h as int].actor) == StatementModel::Send(t, e),
        StatementModel::Send(t, e).required_messages() <= w.slots[h as int].actor.queue.len(),
        ({
            let a = w.slots[h as int].actor;
            let (q1, w1, r1) = eval(a.env, a.queue, w, t);
            r1 is Ok && !(r1->Ok_0 is ActorHandle) && eval(a.env, q1, w1, e).2 is Ok
        }),
    ensures
        step(w, h).1 == Err::<(), ErrorModel>(ErrorModel::SendToNonActor),
        step(w, h).0.slots[h as int].actor.position == w.slots[h as int].actor.position,
        step(w, h).0.slots[h as int].actor.code == w.slots[h as int].actor.code,
{
    let a = w.slots[h as int].actor;
    lemma_exec_statement_shape(a, w, next_statement(a), h as int);
}

/// Spawning an operand that evaluates to anything but a closure fails with
/// `SpawningNonBlock`.
pub proof fn law_spawn_of_non_block(env: nat, q: Seq<ValueModel>, w: VmModel, b: ExprModel)
    requires
        eval(env, q, w, b).2 is Ok,
        !(eval(env, q, w, b).2->Ok_0 is Closure),
    ensures
        eval(env, q, w, ExprModel::Spawn(Box::new(b))).2 == Err::<ValueModel, ErrorModel>(ErrorModel::SpawningNonBlock),
{
}

/// An active actor whose next statement has a receive-count above the length of its
/// mailbox does not execute it: the step parks the actor and changes nothing else.
pub proof fn law_short_mailbox_parks(w: VmModel, h: nat)
    requires
        steppable(w, h),
        next_statement(w.slots[h as int].actor).receive_count() > w.slots[h as int].actor.queue.len(),
    ensures
        step(w, h) == (with_slot(w, h as int, SlotModel { state: ActorState::Parked, actor: w.slots[h as int].actor }), Ok::<(), ErrorModel>(())),
{
    match next_statement(w.slots[h as int].actor) {
        StatementModel::Bind(_, e) => lemma_required_at_most_one(e),
        StatementModel::Expr(e) => lemma_required_at_most_one(e),
        StatementModel::Send(t, e) => {
            lemma_required_at_most_one(t);
            lemma_required_at_most_one(e);
        },
    }
}

/// An active actor whose mailbox holds the messages its next statement takes executes
/// that statement in its step: it either fails or moves past it.
pub proof fn law_full_mailbox_executes(w: VmModel, h: nat)
    requires
        steppable(w, h),
        next_statement(w.slots[h as int].actor).required_messages() <= w.slots[h as int].actor.queue.len(),
    ensures
        step(w, h).1 is Ok ==> step(w, h).0.slots[h as int].actor.position == w.slots[h as int].actor.position + 1,
        step(w, h).0.slots[h as int].state == ActorState::Active,
{
    let a = w.slots[h as int].actor;
    lemma_exec_statement_shape(a, w, next_statement(a), h as int);
}

/// Delivering a message to a parked actor makes it active with the message at the
/// end of its mailbox; if its next statement still needs more messages, its next
/// step parks it again with that mailbox untouched.
pub proof fn law_delivery_wakes_parked(w: VmModel, t: u64, v: ValueModel)
    requires
        t < w.slots.len(),
        w.slots[t as int].state == ActorState::Parked,
    ensures
        delivered(w, t, v).slots[t as int] == (SlotModel {
            state: ActorState::Active,
            actor: with_queue(w.slots[t as int].actor, w.slots[t as int].actor.queue.push(v)),
        }),
        ({
            let a = w.slots[t as int].actor;
            let woke = delivered(w, t, v);
            !a.is_completed() && next_statement(a).required_messages() > a.queue.len() + 1
                ==> step(woke, t as nat) == (with_slot(woke, t as int, SlotModel {
                    state: ActorState::Parked,
                    actor: with_queue(a, a.queue.push(v)),
                }), Ok::<(), ErrorModel>(()))
        }),
{
}

} // verus!
