use vstd::prelude::*;
use std::collections::VecDeque;
use vstd::pervasive::VecAdditionalExecFns;
use vstd::string::StringExecFns;
use crate::ast::{duplicate_statements, lemma_statements_view, statements_view, Expr, ExprModel, Statement, StatementModel};

verus! {

broadcast use vstd::std_specs::vecdeque::group_vec_dequeue_axioms;

/// The ways in which running a statement can fail.
#[derive(Debug)]
pub enum Error {
    SendToNonActor,
    UnboundVariable(String),
    SpawningNonBlock,
    RootDeadlock,
}

pub enum ErrorModel {
    SendToNonActor,
    UnboundVariable(Seq<char>),
    SpawningNonBlock,
    RootDeadlock,
}

impl Error {
    pub open spec fn view(&self) -> ErrorModel {
        match self {
            Error::SendToNonActor => ErrorModel::SendToNonActor,
            Error::UnboundVariable(n) => ErrorModel::UnboundVariable(n@),
            Error::SpawningNonBlock => ErrorModel::SpawningNonBlock,
            Error::RootDeadlock => ErrorModel::RootDeadlock,
        }
    }
}

/// The text that reports an error to a user.
pub open spec fn error_message(e: ErrorModel) -> Seq<char> {
    match e {
        ErrorModel::SendToNonActor => "tried to send message to non-actor"@,
        ErrorModel::UnboundVariable(n) => "unbound variable: `"@ + n + "`"@,
        ErrorModel::SpawningNonBlock => "tried to spawn a non-block"@,
        ErrorModel::RootDeadlock => "root got into a deadlock"@,
    }
}

impl Error {
    pub fn message(&self) -> (r: String)
        ensures
            r@ == error_message(self.view()),
    {
        match self {
            Error::SendToNonActor => String::from_str("tried to send message to non-actor"),
            Error::UnboundVariable(n) => {
                let mut r = String::from_str("unbound variable: `");
                r.append(n.as_str());
                r.append("`");
                r
            },
            Error::SpawningNonBlock => String::from_str("tried to spawn a non-block"),
            Error::RootDeadlock => String::from_str("root got into a deadlock"),
        }
    }
}

/// A runtime value: an actor handle, a symbol, or a closure made of the index of
/// the captured scope and a statement body.
#[derive(Debug)]
pub enum Value {
    ActorHandle(u64),
    Symbol(String),
    Closure(usize, Vec<Statement>),
}

/// The decimal text of one digit.
pub open spec fn digit_text(d: nat) -> Seq<char> {
    if d == 0 { "0"@ } else if d == 1 { "1"@ } else if d == 2 { "2"@ } else if d == 3 { "3"@ }
    else if d == 4 { "4"@ } else if d == 5 { "5"@ } else if d == 6 { "6"@ } else if d == 7 { "7"@ }
    else if d == 8 { "8"@ } else { "9"@ }
}

/// The decimal text of `n`, without leading zeros.
pub open spec fn decimal(n: nat) -> Seq<char>
    decreases n,
{
    if n < 10 {
        digit_text(n)
    } else {
        decimal(n / 10) + digit_text(n % 10)
    }
}

/// Appends the decimal text of `n` to `s`.
fn append_decimal(s: &mut String, n: u64)
    ensures
        final(s)@ == old(s)@ + decimal(n as nat),
    decreases n,
{
    if n >= 10 {
        append_decimal(s, n / 10);
    }
    let d = n % 10;
    let ghost mid = s@;
    if d == 0 { s.append("0"); } else if d == 1 { s.append("1"); } else if d == 2 { s.append("2"); }
    else if d == 3 { s.append("3"); } else if d == 4 { s.append("4"); } else if d == 5 { s.append("5"); }
    else if d == 6 { s.append("6"); } else if d == 7 { s.append("7"); } else if d == 8 { s.append("8"); }
    else { s.append("9"); }
    proof {
        assert(s@ == mid + digit_text(d as nat));
        if n >= 10 {
            assert(old(s)@ + decimal(n as nat) =~= old(s)@ + decimal((n / 10) as nat) + digit_text(d as nat));
        }
    }
}

/// The text that shows a value to a user.
pub open spec fn value_text(v: ValueModel) -> Seq<char> {
    match v {
        ValueModel::ActorHandle(h) => "<actor "@ + decimal(h as nat) + ">"@,
        ValueModel::Symbol(s) => "'"@ + s,
        ValueModel::Closure(_, _) => "<closure ...>"@,
    }
}

pub enum ValueModel {
    ActorHandle(u64),
    Symbol(Seq<char>),
    Closure(nat, Seq<StatementModel>),
}

impl Value {
    pub open spec fn view(&self) -> ValueModel {
        match self {
            Value::ActorHandle(h) => ValueModel::ActorHandle(*h),
            Value::Symbol(s) => ValueModel::Symbol(s@),
            Value::Closure(e, b) => ValueModel::Closure(*e as nat, statements_view(b@)),
        }
    }

    pub fn describe(&self) -> (r: String)
        ensures
            r@ == value_text(self.view()),
    {
        match self {
            Value::ActorHandle(h) => {
                let mut r = String::from_str("<actor ");
                append_decimal(&mut r, *h);
                r.append(">");
                r
            },
            Value::Symbol(s) => {
                let mut r = String::from_str("'");
                r.append(s.as_str());
                r
            },
            Value::Closure(_, _) => String::from_str("<closure ...>"),
        }
    }

    /// A copy of this value; a copied closure shares its captured scope.
    pub fn duplicate(&self) -> (r: Value)
        ensures
            r.view() == self.view(),
    {
        match self {
            Value::ActorHandle(h) => Value::ActorHandle(*h),
            Value::Symbol(s) => Value::Symbol(s.clone()),
            Value::Closure(e, b) => Value::Closure(*e, duplicate_statements(b)),
        }
    }
}

pub open spec fn bindings_view(b: Seq<(String, Value)>) -> Seq<(Seq<char>, ValueModel)> {
    b.map_values(|p: (String, Value)| (p.0@, p.1.view()))
}

pub open spec fn values_view(q: Seq<Value>) -> Seq<ValueModel> {
    q.map_values(|v: Value| v.view())
}

/// One lexical scope: its own bindings, later ones shadowing earlier ones of the
/// same name, and the index of its parent scope in the scheduler's scope arena.
pub struct Env {
    bindings: Vec<(String, Value)>,
    next: Option<usize>,
}

pub struct EnvModel {
    pub bindings: Seq<(Seq<char>, ValueModel)>,
    pub next: Option<nat>,
}

impl Env {
    pub closed spec fn view(&self) -> EnvModel {
        EnvModel {
            bindings: bindings_view(self.bindings@),
            next: match self.next {
                Some(p) => Some(p as nat),
                None => None,
            },
        }
    }
}

pub open spec fn envs_view(envs: Seq<Env>) -> Seq<EnvModel> {
    envs.map_values(|e: Env| e.view())
}

/// The value bound to `name` in one scope: the latest binding of that name.
pub open spec fn scope_get(b: Seq<(Seq<char>, ValueModel)>, name: Seq<char>) -> Option<ValueModel>
    decreases b.len(),
{
    if b.len() == 0 {
        None
    } else if b.last().0 == name {
        Some(b.last().1)
    } else {
        scope_get(b.drop_last(), name)
    }
}

/// Lookup of `name` from scope `at` outward through the parent links; a parent link
/// always points to an earlier scope.
pub open spec fn lookup_from(envs: Seq<EnvModel>, at: int, name: Seq<char>) -> Option<ValueModel>
    decreases at,
{
    if 0 <= at < envs.len() {
        match scope_get(envs[at].bindings, name) {
            Some(v) => Some(v),
            None => match envs[at].next {
                Some(p) => if p < at {
                    lookup_from(envs, p as int, name)
                } else {
                    None
                },
                None => None,
            },
        }
    } else {
        None
    }
}

impl Env {
    /// Looks `name` up from scope `at` of the arena `envs` outward.
    pub fn lookup(envs: &Vec<Env>, at: usize, name: &String) -> (r: Result<Value, Error>)
        ensures
            match lookup_from(envs_view(envs@), at as int, name@) {
                Some(v) => r is Ok && r->Ok_0.view() == v,
                None => r is Err && r->Err_0.view() == ErrorModel::UnboundVariable(name@),
            },
    {
        let ghost ev = envs_view(envs@);
        let mut cur: usize = at;
        loop
            invariant
                ev == envs_view(envs@),
                lookup_from(ev, at as int, name@) == lookup_from(ev, cur as int, name@),
            decreases cur,
        {
            if cur >= envs.len() {
                return Err(Error::UnboundVariable(name.clone()));
            }
            let scope = &envs[cur];
            let ghost bv = bindings_view(scope.bindings@);
            assert(ev[cur as int] == scope.view());
            assert(bv.subrange(0, bv.len() as int) =~= bv);
            let mut j: usize = scope.bindings.len();
            while j > 0
                invariant
                    j <= scope.bindings@.len(),
                    ev == envs_view(envs@),
                    cur < envs@.len(),
                    ev[cur as int] == scope.view(),
                    lookup_from(ev, at as int, name@) == lookup_from(ev, cur as int, name@),
                    bv == bindings_view(scope.bindings@),
                    scope_get(bv, name@) == scope_get(bv.subrange(0, j as int), name@),
                decreases j,
            {
                let ghost sub = bv.subrange(0, j as int);
                assert(sub.drop_last() =~= bv.subrange(0, j - 1));
                assert(sub.last() == bv[j - 1]);
                assert(bv[j - 1] == (scope.bindings@[j - 1].0@, scope.bindings@[j - 1].1.view()));
                if scope.bindings[j - 1].0 == *name {
                    assert(scope_get(bv, name@) == Some(bv[j - 1].1));
                    assert(ev[cur as int].bindings == bv);
                    assert(lookup_from(ev, cur as int, name@) == Some(bv[j - 1].1));
                    return Ok(scope.bindings[j - 1].1.duplicate());
                }
                j = j - 1;
            }
            assert(bv.subrange(0, 0) =~= Seq::<(Seq<char>, ValueModel)>::empty());
            match scope.next {
                Some(p) => {
                    if p < cur {
                        cur = p;
                    } else {
                        return Err(Error::UnboundVariable(name.clone()));
                    }
                },
                None => {
                    return Err(Error::UnboundVariable(name.clone()));
                },
            }
        }
    }
}


/// One actor: its code, its program counter, the index of its own scope, and its
/// mailbox.
pub struct Actor {
    code: Vec<Statement>,
    position: usize,
    env: usize,
    queue: VecDeque<Value>,
}

pub struct ActorModel {
    pub code: Seq<StatementModel>,
    pub position: nat,
    pub env: nat,
    pub queue: Seq<ValueModel>,
}

impl ActorModel {
    pub open spec fn is_completed(self) -> bool {
        self.position >= self.code.len()
    }
}

/// The empty actor: no code, scope 0, empty mailbox.
pub open spec fn idle_actor() -> ActorModel {
    ActorModel { code: Seq::empty(), position: 0, env: 0, queue: Seq::empty() }
}

impl Actor {
    pub closed spec fn view(&self) -> ActorModel {
        ActorModel {
            code: statements_view(self.code@),
            position: self.position as nat,
            env: self.env as nat,
            queue: values_view(self.queue@),
        }
    }

    fn idle() -> (r: Actor)
        ensures
            r.view() == idle_actor(),
    {
        let r = Actor { code: Vec::new(), position: 0, env: 0, queue: VecDeque::new() };
        proof {
            assert(values_view(r.queue@) =~= Seq::<ValueModel>::empty());
        }
        r
    }

    fn is_completed(&self) -> (r: bool)
        ensures
            r == self.view().is_completed(),
    {
        proof {
            lemma_statements_view(self.code@);
        }
        self.position >= self.code.len()
    }
}

/// Where an actor stands in the scheduler. `Staged` actors were spawned during the
/// current round and become active when it ends; `Retired` actors have completed and
/// were pruned.
#[derive(Debug, Clone, Copy, PartialEq, Eq, Structural)]
pub enum ActorState {
    Active,
    Parked,
    Staged,
    Retired,
}

/// The scheduler's record of one actor handle.
pub struct ActorSlot {
    state: ActorState,
    actor: Actor,
}

pub struct SlotModel {
    pub state: ActorState,
    pub actor: ActorModel,
}

impl ActorSlot {
    pub closed spec fn view(&self) -> SlotModel {
        SlotModel { state: self.state, actor: self.actor.view() }
    }
}

/// The scheduler: an arena of scopes and one slot per actor handle; handle 0 is the
/// root actor.
pub struct Vm {
    envs: Vec<Env>,
    slots: Vec<ActorSlot>,
}

pub struct VmModel {
    pub envs: Seq<EnvModel>,
    pub slots: Seq<SlotModel>,
}

impl VmModel {
    pub open spec fn wf(self) -> bool {
        &&& self.envs.len() > 0
        &&& self.slots.len() > 0
        &&& forall|i: int| 0 <= i < self.slots.len() ==> #[trigger] self.slots[i].actor.env < self.envs.len()
    }

    pub open spec fn root(self) -> ActorModel {
        self.slots[0].actor
    }
}

impl Vm {
    pub closed spec fn view(&self) -> VmModel {
        VmModel {
            envs: envs_view(self.envs@),
            slots: self.slots@.map_values(|s: ActorSlot| s.view()),
        }
    }

    pub open spec fn wf(&self) -> bool {
        self.view().wf()
    }
}

pub open spec fn value_result_view(r: Result<Value, Error>) -> Result<ValueModel, ErrorModel> {
    match r {
        Ok(v) => Ok(v.view()),
        Err(e) => Err(e.view()),
    }
}

pub open spec fn unit_result_view(r: Result<(), Error>) -> Result<(), ErrorModel> {
    match r {
        Ok(_) => Ok(()),
        Err(e) => Err(e.view()),
    }
}

/// The scheduler after spawning an actor that runs `code` in a fresh scope whose
/// parent is `env`; the new actor is staged under the next handle.
pub open spec fn spawned(w: VmModel, env: nat, code: Seq<StatementModel>) -> VmModel {
    VmModel {
        envs: w.envs.push(EnvModel { bindings: Seq::empty(), next: Some(env) }),
        slots: w.slots.push(
            SlotModel {
                state: ActorState::Staged,
                actor: ActorModel { code, position: 0, env: w.envs.len(), queue: Seq::empty() },
            },
        ),
    }
}

/// Evaluation of `e` by an actor whose scope is `env` and whose mailbox is `q`:
/// the mailbox left, the scheduler after, and the value or the error.
pub open spec fn eval(env: nat, q: Seq<ValueModel>, w: VmModel, e: ExprModel) -> (Seq<ValueModel>, VmModel, Result<ValueModel, ErrorModel>)
    decreases e,
{
    match e {
        ExprModel::Var(n) => (q, w, match lookup_from(w.envs, env as int, n) {
            Some(v) => Ok(v),
            None => Err(ErrorModel::UnboundVariable(n)),
        }),
        ExprModel::Block(b) => (q, w, Ok(ValueModel::Closure(env, b))),
        ExprModel::Spawn(b) => {
            let (q1, w1, r) = eval(env, q, w, *b);
            match r {
                Err(x) => (q1, w1, Err(x)),
                Ok(ValueModel::Closure(cenv, code)) => (q1, spawned(w1, cenv, code), Ok(ValueModel::ActorHandle(w1.slots.len() as u64))),
                Ok(_) => (q1, w1, Err(ErrorModel::SpawningNonBlock)),
            }
        },
        ExprModel::Receive => (q.drop_first(), w, Ok(q[0])),
        ExprModel::Symbol(s) => (q, w, Ok(ValueModel::Symbol(s))),
        ExprModel::Root => (q, w, Ok(ValueModel::ActorHandle(0))),
    }
}

/// The scheduler after binding `n` to `v` in scope `env`.
pub open spec fn bound(w: VmModel, env: nat, n: Seq<char>, v: ValueModel) -> VmModel {
    VmModel {
        envs: w.envs.update(env as int, EnvModel { bindings: w.envs[env as int].bindings.push((n, v)), next: w.envs[env as int].next }),
        slots: w.slots,
    }
}

/// The scheduler after delivering `v` to handle `t`: an active actor gets it in its
/// mailbox, a parked one gets it and becomes active, any other handle drops it.
pub open spec fn delivered(w: VmModel, t: u64, v: ValueModel) -> VmModel {
    if t < w.slots.len() && (w.slots[t as int].state == ActorState::Active || w.slots[t as int].state == ActorState::Parked) {
        let a = w.slots[t as int].actor;
        VmModel {
            envs: w.envs,
            slots: w.slots.update(t as int, SlotModel { state: ActorState::Active, actor: ActorModel { queue: a.queue.push(v), ..a } }),
        }
    } else {
        w
    }
}

pub open spec fn with_queue(a: ActorModel, q: Seq<ValueModel>) -> ActorModel {
    ActorModel { queue: q, ..a }
}

pub open spec fn advanced(a: ActorModel, q: Seq<ValueModel>) -> ActorModel {
    ActorModel { queue: q, position: a.position + 1, ..a }
}

/// Execution of statement `s` by actor `a`: the actor after, the scheduler after, and
/// on success the message that a `Send` still has to deliver.
pub open spec fn exec_statement(a: ActorModel, w: VmModel, s: StatementModel) -> (ActorModel, VmModel, Result<Option<(u64, ValueModel)>, ErrorModel>) {
    match s {
        StatementModel::Bind(n, e) => {
            let (q1, w1, r) = eval(a.env, a.queue, w, e);
            match r {
                Err(x) => (with_queue(a, q1), w1, Err(x)),
                Ok(v) => (advanced(a, q1), bound(w1, a.env, n, v), Ok(None)),
            }
        },
        StatementModel::Expr(e) => {
            let (q1, w1, r) = eval(a.env, a.queue, w, e);
            match r {
                Err(x) => (with_queue(a, q1), w1, Err(x)),
                Ok(_) => (advanced(a, q1), w1, Ok(None)),
            }
        },
        StatementModel::Send(t, e) => {
            let (q1, w1, r1) = eval(a.env, a.queue, w, t);
            match r1 {
                Err(x) => (with_queue(a, q1), w1, Err(x)),
                Ok(to) => {
                    let (q2, w2, r2) = eval(a.env, q1, w1, e);
                    match r2 {
                        Err(x) => (with_queue(a, q2), w2, Err(x)),
                        Ok(v) => match to {
                            ValueModel::ActorHandle(th) => (advanced(a, q2), w2, Ok(Some((th, v)))),
                            _ => (with_queue(a, q2), w2, Err(ErrorModel::SendToNonActor)),
                        },
                    }
                },
            }
        },
    }
}

pub open spec fn with_slot(w: VmModel, h: int, s: SlotModel) -> VmModel {
    VmModel { envs: w.envs, slots: w.slots.update(h, s) }
}

/// The next statement of actor `a`.
pub open spec fn next_statement(a: ActorModel) -> StatementModel {
    a.code[a.position as int]
}

/// One step of actor `h`: nothing if it is not active or has completed; parking if
/// its mailbox holds fewer messages than its next statement takes; else that
/// statement, followed by the delivery of what it sent. The messages a statement
/// takes are its receive-count, plus the `Receive` that the operand of a `spawn`
/// may be, since the spawning actor evaluates that operand.
pub open spec fn step(w: VmModel, h: nat) -> (VmModel, Result<(), ErrorModel>) {
    if h >= w.slots.len() || w.slots[h as int].state != ActorState::Active {
        (w, Ok(()))
    } else {
        let a = w.slots[h as int].actor;
        if a.is_completed() {
            (w, Ok(()))
        } else if next_statement(a).required_messages() > a.queue.len() {
            (with_slot(w, h as int, SlotModel { state: ActorState::Parked, actor: a }), Ok(()))
        } else {
            let (a1, w1, r) = exec_statement(a, w, next_statement(a));
            let w2 = with_slot(w1, h as int, SlotModel { state: ActorState::Active, actor: a1 });
            match r {
                Err(x) => (w2, Err(x)),
                Ok(None) => (w2, Ok(())),
                Ok(Some((t, v))) => (delivered(w2, t, v), Ok(())),
            }
        }
    }
}

/// Evaluation does not read the actors' slots: it only appends to them.
pub proof fn lemma_eval_slot_independent(env: nat, q: Seq<ValueModel>, w: VmModel, e: ExprModel, h: int, s: SlotModel)
    requires
        0 <= h < w.slots.len(),
    ensures
        ({
            let (q1, w1, r) = eval(env, q, w, e);
            let (q2, w2, r2) = eval(env, q, with_slot(w, h, s), e);
            q2 == q1 && r2 == r && w2 == with_slot(w1, h, s) && w1.slots.len() >= w.slots.len()
                && w1.envs.len() >= w.envs.len()
        }),
    decreases e,
{
    match e {
        ExprModel::Spawn(b) => {
            lemma_eval_slot_independent(env, q, w, *b, h, s);
            let (q1, w1, r) = eval(env, q, w, *b);
            if let Ok(ValueModel::Closure(cenv, code)) = r {
                assert(spawned(with_slot(w1, h, s), cenv, code).slots =~= with_slot(spawned(w1, cenv, code), h, s).slots);
            }
        },
        _ => {},
    }
}

impl Vm {
    fn spawn(&mut self, env: usize, code: Vec<Statement>) -> (h: u64)
        ensures
            final(self).view() == spawned(old(self).view(), env as nat, statements_view(code@)),
            h == old(self).view().slots.len() as u64,
    {
        let scope = self.envs.len();
        let ghost ov = self.view();
        self.envs.push(Env { bindings: Vec::new(), next: Some(env) });
        let h = self.slots.len() as u64;
        let actor = Actor { code, position: 0, env: scope, queue: VecDeque::new() };
        self.slots.push(ActorSlot { state: ActorState::Staged, actor });
        proof {
            let nv = spawned(ov, env as nat, statements_view(code@));
            assert(bindings_view(Seq::<(String, Value)>::empty()) =~= Seq::empty());
            assert(values_view(actor.queue@) =~= Seq::empty());
            assert(self.view().envs =~= nv.envs);
            assert(self.view().slots =~= nv.slots);
        }
        h
    }

    /// Evaluates `expr` for an actor whose scope is `env` and whose mailbox is `queue`.
    fn eval_expr(&mut self, env: usize, queue: &mut VecDeque<Value>, expr: &Expr) -> (r: Result<Value, Error>)
        requires
            old(self).wf(),
            env < old(self).view().envs.len(),
            expr.view().required_messages() <= old(queue)@.len(),
        ensures
            (values_view(final(queue)@), final(self).view(), value_result_view(r)) == eval(env as nat, values_view(old(queue)@), old(self).view(), expr.view()),
            final(self).wf(),
            final(queue)@.len() == old(queue)@.len() - expr.view().required_messages(),
        decreases expr,
    {
        match expr {
            Expr::Var(n) => Env::lookup(&self.envs, env, n),
            Expr::Block(b) => Ok(Value::Closure(env, duplicate_statements(b))),
            Expr::Spawn(body) => {
                match self.eval_expr(env, queue, body) {
                    Ok(Value::Closure(cenv, code)) => {
                        let h = self.spawn(cenv, code);
                        Ok(Value::ActorHandle(h))
                    },
                    Ok(_) => Err(Error::SpawningNonBlock),
                    Err(x) => Err(x),
                }
            },
            Expr::Receive => {
                let ghost oq = queue@;
                match queue.pop_front() {
                    Some(v) => {
                        proof {
                            assert(values_view(queue@) =~= values_view(oq).drop_first());
                        }
                        Ok(v)
                    },
                    None => {
                        // unreachable: the caller guarantees a message for each receive
                        proof {
                            assert(false);
                        }
                        Err(Error::RootDeadlock)
                    },
                }
            },
            Expr::Symbol(s) => Ok(Value::Symbol(s.clone())),
            Expr::Root => Ok(Value::ActorHandle(0)),
        }
    }
}


impl Vm {
    /// Binds `name` to `v` in scope `env`.
    fn bind(&mut self, env: usize, name: String, v: Value)
        requires
            old(self).wf(),
            env < old(self).view().envs.len(),
        ensures
            final(self).view() == bound(old(self).view(), env as nat, name@, v.view()),
            final(self).wf(),
    {
        let ghost ov = self.view();
        let mut scope = Env { bindings: Vec::new(), next: None };
        self.envs.set_and_swap(env, &mut scope);
        let ghost ob = scope.bindings@;
        scope.bindings.push((name, v));
        self.envs.set(env, scope);
        proof {
            assert(bindings_view(scope.bindings@) =~= bindings_view(ob).push((name@, v.view())));
            assert(self.view().envs =~= bound(ov, env as nat, name@, v.view()).envs);
        }
    }

    /// Delivers `v` to the actor with handle `h`: appended to the mailbox of an active
    /// actor; appended to that of a parked actor, which becomes active; dropped for any
    /// other handle.
    fn send_to_actor(&mut self, h: u64, v: Value)
        requires
            old(self).wf(),
        ensures
            final(self).view() == delivered(old(self).view(), h, v.view()),
            final(self).wf(),
    {
        if h < self.slots.len() as u64 {
            let i = h as usize;
            let st = self.slots[i].state;
            if st == ActorState::Active || st == ActorState::Parked {
                let ghost ov = self.view();
                let mut slot = ActorSlot { state: ActorState::Retired, actor: Actor::idle() };
                self.slots.set_and_swap(i, &mut slot);
                let ActorSlot { state: _, actor } = slot;
                let Actor { code, position, env, mut queue } = actor;
                let ghost oq = queue@;
                queue.push_back(v);
                let actor = Actor { code, position, env, queue };
                self.slots.set(i, ActorSlot { state: ActorState::Active, actor });
                proof {
                    assert(values_view(queue@) =~= values_view(oq).push(v.view()));
                    assert(self.view().slots =~= delivered(ov, h, v.view()).slots);
                    assert forall|j: int| 0 <= j < self.view().slots.len() implies #[trigger] self.view().slots[j].actor.env < self.view().envs.len() by {
                        if j != i {
                            assert(self.view().slots[j] == ov.slots[j]);
                        }
                    }
                }
            }
        }
    }

    fn set_state(&mut self, h: usize, st: ActorState)
        requires
            old(self).wf(),
            h < old(self).view().slots.len(),
        ensures
            final(self).view() == with_slot(old(self).view(), h as int, SlotModel { state: st, actor: old(self).view().slots[h as int].actor }),
            final(self).wf(),
    {
        let ghost ov = self.view();
        let mut slot = ActorSlot { state: ActorState::Retired, actor: Actor::idle() };
        self.slots.set_and_swap(h, &mut slot);
        let ActorSlot { state: _, actor } = slot;
        self.slots.set(h, ActorSlot { state: st, actor });
        proof {
            assert(self.view().slots =~= with_slot(ov, h as int, SlotModel { state: st, actor: ov.slots[h as int].actor }).slots);
        }
    }

    /// One step of the actor with handle `h`.
    fn run_step(&mut self, h: usize) -> (r: Result<(), Error>)
        requires
            old(self).wf(),
        ensures
            (final(self).view(), unit_result_view(r)) == step(old(self).view(), h as nat),
            final(self).wf(),
    {
        let ghost w = self.view();
        if h >= self.slots.len() {
            return Ok(());
        }
        if self.slots[h].state != ActorState::Active {
            return Ok(());
        }
        proof {
            lemma_statements_view(self.slots@[h as int].actor.code@);
        }
        if self.slots[h].actor.is_completed() {
            return Ok(());
        }
        let position = self.slots[h].actor.position;
        if self.slots[h].actor.code[position].required_messages() > self.slots[h].actor.queue.len() {
            self.set_state(h, ActorState::Parked);
            return Ok(());
        }
        let ghost a = w.slots[h as int].actor;
        let placeholder = ActorSlot { state: ActorState::Retired, actor: Actor::idle() };
        let ghost ps = placeholder.view();
        let mut slot = placeholder;
        self.slots.set_and_swap(h, &mut slot);
        proof {
            assert(self.view().slots =~= with_slot(w, h as int, ps).slots);
        }
        let ghost taken = slot.view();
        assert(taken == w.slots[h as int]);
        let ActorSlot { state, actor } = slot;
        let Actor { code, position, env, mut queue } = actor;
        let ghost w0 = self.view();
        proof {
            assert(a.env < w.envs.len());
            assert(env as nat == a.env);
            assert(position as nat == a.position);
            lemma_statements_view(code@);
            assert(code@[position as int].view() == next_statement(a));
            assert(!a.is_completed());
            assert(position < code.len());
            assert forall|j: int| 0 <= j < w0.slots.len() implies #[trigger] w0.slots[j].actor.env < w0.envs.len() by {
                if j != h {
                    assert(w0.slots[j] == w.slots[j]);
                }
            }
        }
        let outcome: Result<Option<(u64, Value)>, Error> = match &code[position] {
            Statement::Bind(n, e) => {
                proof { lemma_eval_slot_independent(env as nat, a.queue, w, e.view(), h as int, ps); }
                match self.eval_expr(env, &mut queue, e) {
                    Ok(v) => {
                        self.bind(env, n.clone(), v);
                        Ok(None)
                    },
                    Err(x) => Err(x),
                }
            },
            Statement::Expr(e) => {
                proof { lemma_eval_slot_independent(env as nat, a.queue, w, e.view(), h as int, ps); }
                match self.eval_expr(env, &mut queue, e) {
                    Ok(_) => Ok(None),
                    Err(x) => Err(x),
                }
            },
            Statement::Send(t, e) => {
                proof { lemma_eval_slot_independent(env as nat, a.queue, w, t.view(), h as int, ps); }
                match self.eval_expr(env, &mut queue, t) {
                    Ok(to) => {
                        let ghost q1 = values_view(queue@);
                        let ghost w1 = eval(env as nat, a.queue, w, t.view()).1;
                        proof { lemma_eval_slot_independent(env as nat, q1, w1, e.view(), h as int, ps); }
                        match self.eval_expr(env, &mut queue, e) {
                            Ok(v) => match to {
                                Value::ActorHandle(th) => Ok(Some((th, v))),
                                _ => Err(Error::SendToNonActor),
                            },
                            Err(x) => Err(x),
                        }
                    },
                    Err(x) => Err(x),
                }
            },
        };
        let new_position = if outcome.is_ok() { position + 1 } else { position };
        let actor = Actor { code, position: new_position, env, queue };
        let ghost w1 = self.view();
        self.slots.set(h, ActorSlot { state, actor });
        proof {
            assert forall|j: int| 0 <= j < self.view().slots.len() implies #[trigger] self.view().slots[j].actor.env < self.view().envs.len() by {
                if j != h {
                    assert(self.view().slots[j] == w1.slots[j]);
                }
            }
            let ex = exec_statement(a, w, next_statement(a));
            assert(w1 == with_slot(ex.1, h as int, ps));
            assert(self.view().slots[h as int] == SlotModel { state: ActorState::Active, actor: ex.0 });
            let target = with_slot(ex.1, h as int, SlotModel { state: ActorState::Active, actor: ex.0 });
            assert(self.view().slots.len() == target.slots.len());
            assert forall|j: int| 0 <= j < target.slots.len() implies self.view().slots[j] == target.slots[j] by {
                if j != h {
                    assert(self.view().slots[j] == w1.slots[j]);
                }
            }
            assert(self.view().slots =~= target.slots);
        }
        match outcome {
            Ok(Some((th, v))) => {
                self.send_to_actor(th, v);
                Ok(())
            },
            Ok(None) => Ok(()),
            Err(x) => Err(x),
        }
    }
}


/// Which handles are active at the start of a round.
pub open spec fn active_flags(w: VmModel) -> Seq<bool> {
    Seq::new(w.slots.len(), |i: int| w.slots[i].state == ActorState::Active)
}

/// Steps, in order of handle, each actor flagged from `i` on; the first error stops
/// the round.
pub open spec fn steps_from(w: VmModel, flags: Seq<bool>, i: nat) -> (VmModel, Result<(), ErrorModel>)
    decreases flags.len() - i,
{
    if i >= flags.len() {
        (w, Ok(()))
    } else if flags[i as int] {
        let (w1, r) = step(w, i);
        match r {
            Err(x) => (w1, Err(x)),
            Ok(_) => steps_from(w1, flags, i + 1),
        }
    } else {
        steps_from(w, flags, i + 1)
    }
}

/// The end of a round for one slot: a staged actor becomes active, and a completed
/// actor other than the root is retired.
pub open spec fn settled_slot(i: int, s: SlotModel) -> SlotModel {
    let st = if s.state == ActorState::Staged { ActorState::Active } else { s.state };
    if i != 0 && (st == ActorState::Active || st == ActorState::Parked) && s.actor.is_completed() {
        SlotModel { state: ActorState::Retired, actor: idle_actor() }
    } else {
        SlotModel { state: st, actor: s.actor }
    }
}

pub open spec fn settled(w: VmModel) -> VmModel {
    VmModel { envs: w.envs, slots: w.slots.map(|i: int, s: SlotModel| settled_slot(i, s)) }
}

/// One round: one step for each actor active at its start, then staged actors join
/// and completed ones are pruned.
pub open spec fn round(w: VmModel) -> (VmModel, Result<(), ErrorModel>) {
    let (w1, r) = steps_from(w, active_flags(w), 0);
    match r {
        Err(x) => (w1, Err(x)),
        Ok(_) => (settled(w1), Ok(())),
    }
}

/// No actor but a completed root is active.
pub open spec fn is_done(w: VmModel) -> bool {
    forall|i: int| 0 <= i < w.slots.len() && #[trigger] w.slots[i].state == ActorState::Active
        ==> i == 0 && w.slots[0].actor.is_completed()
}

/// The root actor loaded with the single statement `s` and made active; its scope and
/// mailbox stay.
pub open spec fn loaded(w: VmModel, s: StatementModel) -> VmModel {
    with_slot(w, 0, SlotModel { state: ActorState::Active, actor: ActorModel { code: seq![s], position: 0, ..w.root() } })
}

/// Rounds until the scheduler is done, at most `n` of them: `Ok(true)` when the root
/// completed, `Ok(false)` when the rounds ran out first.
pub open spec fn run_rounds(w: VmModel, n: nat) -> (VmModel, Result<bool, ErrorModel>)
    decreases n,
{
    if is_done(w) {
        if w.root().is_completed() {
            (w, Ok(true))
        } else {
            (w, Err(ErrorModel::RootDeadlock))
        }
    } else if n == 0 {
        (w, Ok(false))
    } else {
        let (w1, r) = round(w);
        match r {
            Err(x) => (w1, Err(x)),
            Ok(_) => run_rounds(w1, (n - 1) as nat),
        }
    }
}

/// A fresh scheduler: one empty scope, and the root actor parked with no code.
pub open spec fn initial_vm() -> VmModel {
    VmModel {
        envs: seq![EnvModel { bindings: Seq::empty(), next: None }],
        slots: seq![SlotModel { state: ActorState::Parked, actor: idle_actor() }],
    }
}

pub open spec fn bool_result_view(r: Result<bool, Error>) -> Result<bool, ErrorModel> {
    match r {
        Ok(b) => Ok(b),
        Err(e) => Err(e.view()),
    }
}

/// What a whole top-level run reports: a run still going after its last round
/// counts as a root that cannot finish.
pub open spec fn run_outcome(r: Result<bool, ErrorModel>) -> Result<(), ErrorModel> {
    match r {
        Ok(true) => Ok(()),
        Ok(false) => Err(ErrorModel::RootDeadlock),
        Err(x) => Err(x),
    }
}

impl Vm {
    pub fn new() -> (r: Vm)
        ensures
            r.view() == initial_vm(),
            r.wf(),
    {
        let mut envs: Vec<Env> = Vec::new();
        envs.push(Env { bindings: Vec::new(), next: None });
        let mut slots: Vec<ActorSlot> = Vec::new();
        slots.push(ActorSlot { state: ActorState::Parked, actor: Actor::idle() });
        let r = Vm { envs, slots };
        proof {
            assert(bindings_view(Seq::<(String, Value)>::empty()) =~= Seq::empty());
            assert(r.view().envs =~= initial_vm().envs);
            assert(r.view().slots =~= initial_vm().slots);
        }
        r
    }

    fn settle(&mut self)
        requires
            old(self).wf(),
        ensures
            final(self).view() == settled(old(self).view()),
            final(self).wf(),
    {
        let ghost w = self.view();
        let ghost target = settled(w);
        let n = self.slots.len();
        let mut j: usize = 0;
        while j < n
            invariant
                n == w.slots.len(),
                j <= n,
                self.view().envs == w.envs,
                self.view().slots.len() == n,
                forall|k: int| 0 <= k < j ==> #[trigger] self.view().slots[k] == target.slots[k],
                forall|k: int| j <= k < n ==> #[trigger] self.view().slots[k] == w.slots[k],
                w.wf(),
                target == settled(w),
            decreases n - j,
        {
            let ghost cur = self.view();
            assert(cur.slots[j as int] == w.slots[j as int]);
            assert(self.slots@[j as int].view() == cur.slots[j as int]);
            assert(target.slots[j as int] == settled_slot(j as int, w.slots[j as int]));
            let mut slot = ActorSlot { state: ActorState::Retired, actor: Actor::idle() };
            self.slots.set_and_swap(j, &mut slot);
            assert(slot.view() == w.slots[j as int]);
            let st = if slot.state == ActorState::Staged { ActorState::Active } else { slot.state };
            let retire = j != 0 && (st == ActorState::Active || st == ActorState::Parked) && slot.actor.is_completed();
            let ghost mid = self.view();
            if retire {
                self.slots.set(j, ActorSlot { state: ActorState::Retired, actor: Actor::idle() });
            } else {
                let ActorSlot { state: _, actor } = slot;
                self.slots.set(j, ActorSlot { state: st, actor });
            }
            assert(self.view().slots[j as int] == target.slots[j as int]);
            assert forall|k: int| 0 <= k < n && k != j implies #[trigger] self.view().slots[k] == cur.slots[k] by {
                assert(self.view().slots[k] == mid.slots[k]);
            }
            j = j + 1;
        }
        proof {
            assert(self.view().slots =~= target.slots);
            assert forall|k: int| 0 <= k < n implies #[trigger] self.view().slots[k].actor.env < self.view().envs.len() by {
                assert(w.slots[k].actor.env < w.envs.len());
            }
        }
    }

    /// One round of the scheduler.
    fn step_all(&mut self) -> (r: Result<(), Error>)
        requires
            old(self).wf(),
        ensures
            (final(self).view(), unit_result_view(r)) == round(old(self).view()),
            final(self).wf(),
    {
        let ghost w = self.view();
        let ghost flags_spec = active_flags(w);
        let n = self.slots.len();
        let mut flags: Vec<bool> = Vec::new();
        let mut i: usize = 0;
        while i < n
            invariant
                n == w.slots.len(),
                i <= n,
                self.view() == w,
                w == old(self).view(),
                flags_spec == active_flags(w),
                flags@ =~= flags_spec.subrange(0, i as int),
            decreases n - i,
        {
            assert(self.slots@[i as int].view() == w.slots[i as int]);
            assert(flags_spec[i as int] == (w.slots[i as int].state == ActorState::Active));
            flags.push(self.slots[i].state == ActorState::Active);
            i = i + 1;
        }
        assert(flags@ =~= flags_spec);
        let mut i: usize = 0;
        while i < n
            invariant
                n == flags@.len(),
                flags@ == flags_spec,
                flags_spec == active_flags(w),
                w == old(self).view(),
                i <= n,
                self.wf(),
                steps_from(w, flags_spec, 0) == steps_from(self.view(), flags_spec, i as nat),
            decreases n - i,
        {
            if flags[i] {
                let ghost pre = self.view();
                match self.run_step(i) {
                    Ok(()) => {},
                    Err(x) => {
                        assert(flags_spec[i as int]);
                        assert(steps_from(pre, flags_spec, i as nat) == (self.view(), Err::<(), ErrorModel>(x.view())));
                        return Err(x);
                    },
                }
            }
            i = i + 1;
        }
        self.settle();
        Ok(())
    }

    fn is_done(&self) -> (r: bool)
        ensures
            r == is_done(self.view()),
    {
        let ghost w = self.view();
        let n = self.slots.len();
        let mut i: usize = 0;
        while i < n
            invariant
                n == w.slots.len(),
                i <= n,
                w == self.view(),
                forall|k: int| 0 <= k < i && #[trigger] w.slots[k].state == ActorState::Active
                    ==> k == 0 && w.slots[0].actor.is_completed(),
            decreases n - i,
        {
            assert(self.slots@[i as int].view() == w.slots[i as int]);
            if self.slots[i].state == ActorState::Active {
                if i != 0 || !self.slots[i].actor.is_completed() {
                    assert(w.slots[i as int].state == ActorState::Active);
                    return false;
                }
            }
            i = i + 1;
        }
        true
    }

    /// Loads the root actor with the single statement `stmt` and activates it.
    fn load_root(&mut self, stmt: Statement)
        requires
            old(self).wf(),
        ensures
            final(self).view() == loaded(old(self).view(), stmt.view()),
            final(self).wf(),
    {
        let ghost w = self.view();
        let mut slot = ActorSlot { state: ActorState::Retired, actor: Actor::idle() };
        self.slots.set_and_swap(0, &mut slot);
        assert(slot.view() == w.slots[0]);
        let ActorSlot { state: _, actor } = slot;
        let Actor { code: _, position: _, env, queue } = actor;
        let mut code: Vec<Statement> = Vec::new();
        code.push(stmt);
        let actor = Actor { code, position: 0, env, queue };
        self.slots.set(0, ActorSlot { state: ActorState::Active, actor });
        proof {
            lemma_statements_view(code@);
            assert(statements_view(code@) =~= seq![stmt.view()]);
            let target = loaded(w, stmt.view());
            assert(self.view().slots[0] == target.slots[0]);
            assert forall|k: int| 0 < k < w.slots.len() implies self.view().slots[k] == target.slots[k] by {}
            assert(self.view().slots =~= target.slots);
        }
    }

    /// Runs `stmt` as the root actor's program for at most `max_rounds` rounds:
    /// `Ok(true)` when the root completed, `Ok(false)` when it is still running.
    pub fn run_statement_within(&mut self, stmt: Statement, max_rounds: u64) -> (r: Result<bool, Error>)
        requires
            old(self).wf(),
        ensures
            (final(self).view(), bool_result_view(r)) == run_rounds(loaded(old(self).view(), stmt.view()), max_rounds as nat),
            final(self).wf(),
    {
        self.load_root(stmt);
        let ghost w0 = self.view();
        let mut left: u64 = max_rounds;
        loop
            invariant
                self.wf(),
                run_rounds(w0, max_rounds as nat) == run_rounds(self.view(), left as nat),
                w0 == loaded(old(self).view(), stmt.view()),
            decreases left,
        {
            if self.is_done() {
                proof {
                    assert(self.slots@[0].view() == self.view().slots[0]);
                    assert(self.view().root() == self.view().slots[0].actor);
                }
                if self.slots[0].actor.is_completed() {
                    return Ok(true);
                } else {
                    return Err(Error::RootDeadlock);
                }
            }
            if left == 0 {
                return Ok(false);
            }
            match self.step_all() {
                Ok(()) => {},
                Err(x) => {
                    return Err(x);
                },
            }
            left = left - 1;
        }
    }

    /// Runs `stmt` as the root actor's program until no actor but the root can
    /// proceed. A program still running after `u64::MAX` rounds is reported as
    /// `RootDeadlock`.
    pub fn run_statement(&mut self, stmt: Statement) -> (r: Result<(), Error>)
        requires
            old(self).wf(),
        ensures
            ({
                let (w, res) = run_rounds(loaded(old(self).view(), stmt.view()), u64::MAX as nat);
                final(self).view() == w && unit_result_view(r) == run_outcome(res)
            }),
            final(self).wf(),
    {
        match self.run_statement_within(stmt, u64::MAX) {
            Ok(true) => Ok(()),
            Ok(false) => Err(Error::RootDeadlock),
            Err(x) => Err(x),
        }
    }

    /// Takes the next value from the root actor's mailbox.
    pub fn receive(&mut self) -> (r: Option<Value>)
        requires
            old(self).wf(),
        ensures
            final(self).wf(),
            old(self).view().root().queue.len() == 0 ==> r is None && final(self).view() == old(self).view(),
            old(self).view().root().queue.len() > 0 ==> r is Some && r->Some_0.view() == old(self).view().root().queue[0]
                && final(self).view() == with_slot(old(self).view(), 0, SlotModel {
                    state: old(self).view().slots[0].state,
                    actor: with_queue(old(self).view().root(), old(self).view().root().queue.drop_first()),
                }),
    {
        let ghost w = self.view();
        let mut slot = ActorSlot { state: ActorState::Retired, actor: Actor::idle() };
        self.slots.set_and_swap(0, &mut slot);
        assert(slot.view() == w.slots[0]);
        let ActorSlot { state, actor } = slot;
        let Actor { code, position, env, mut queue } = actor;
        let ghost oq = queue@;
        let r = queue.pop_front();
        let actor = Actor { code, position, env, queue };
        self.slots.set(0, ActorSlot { state, actor });
        proof {
            if oq.len() > 0 {
                assert(values_view(queue@) =~= values_view(oq).drop_first());
            } else {
                assert(queue@ == oq);
            }
            assert(self.view().slots[0].actor.env == w.slots[0].actor.env);
            assert forall|k: int| 0 < k < w.slots.len() implies self.view().slots[k] == w.slots[k] by {}
            if oq.len() > 0 {
                let target = with_slot(w, 0, SlotModel { state: w.slots[0].state, actor: with_queue(w.root(), w.root().queue.drop_first()) });
                assert(self.view().slots =~= target.slots);
            } else {
                assert(self.view().slots =~= w.slots);
            }
        }
        r
    }
}

impl Default for Vm {
    fn default() -> (r: Vm)
        ensures
            r.view() == initial_vm(),
    {
        Vm::new()
    }
}

} // verus!
