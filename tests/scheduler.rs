use actorlang::ast::{Expr, Statement};
use actorlang::interpreter::{Error, Value, Vm};

fn sym(s: &str) -> Expr {
    Expr::Symbol(s.to_string())
}

fn var(s: &str) -> Expr {
    Expr::Var(s.to_string())
}

fn bind(n: &str, e: Expr) -> Statement {
    Statement::Bind(n.to_string(), e)
}

fn block(stmts: Vec<Statement>) -> Expr {
    Expr::Block(stmts)
}

fn spawn(e: Expr) -> Expr {
    Expr::Spawn(Box::new(e))
}

fn received_symbol(vm: &mut Vm) -> Option<String> {
    match vm.receive() {
        Some(Value::Symbol(s)) => Some(s),
        Some(other) => panic!("unexpected value {:?}", other),
        None => None,
    }
}

#[test]
fn receive_count_of_expressions() {
    assert_eq!(Expr::Receive.receive_count(), 1);
    assert_eq!(var("x").receive_count(), 0);
    assert_eq!(sym("a").receive_count(), 0);
    assert_eq!(Expr::Root.receive_count(), 0);
    assert_eq!(block(vec![Statement::Expr(Expr::Receive)]).receive_count(), 0);
    assert_eq!(spawn(Expr::Receive).receive_count(), 0);
}

#[test]
fn receive_count_of_statements() {
    assert_eq!(Statement::Send(Expr::Receive, Expr::Receive).receive_count(), 2);
    assert_eq!(Statement::Send(Expr::Root, Expr::Receive).receive_count(), 1);
    assert_eq!(bind("x", Expr::Receive).receive_count(), 1);
    assert_eq!(Statement::Expr(sym("a")).receive_count(), 0);
    assert_eq!(bind("x", spawn(block(vec![Statement::Expr(Expr::Receive)]))).receive_count(), 0);
}

#[test]
fn plain_program_completes() {
    let mut vm = Vm::new();
    assert!(vm.run_statement(bind("x", sym("a"))).is_ok());
    assert!(vm.run_statement(Statement::Expr(var("x"))).is_ok());
    assert!(vm.run_statement(bind("y", var("x"))).is_ok());
    assert!(vm.run_statement(Statement::Send(Expr::Root, var("y"))).is_ok());
    assert_eq!(received_symbol(&mut vm), Some("a".to_string()));
    assert_eq!(received_symbol(&mut vm), None);
}

#[test]
fn send_to_symbol_fails() {
    let mut vm = Vm::new();
    let r = vm.run_statement(Statement::Send(sym("a"), sym("b")));
    assert!(matches!(r, Err(Error::SendToNonActor)));
    assert!(vm.run_statement(Statement::Send(Expr::Root, sym("c"))).is_ok());
    assert_eq!(received_symbol(&mut vm), Some("c".to_string()));
}

#[test]
fn spawn_of_symbol_fails() {
    let mut vm = Vm::new();
    let r = vm.run_statement(Statement::Expr(spawn(sym("a"))));
    assert!(matches!(r, Err(Error::SpawningNonBlock)));
}

#[test]
fn spawn_of_actor_handle_fails() {
    let mut vm = Vm::new();
    let r = vm.run_statement(Statement::Expr(spawn(Expr::Root)));
    assert!(matches!(r, Err(Error::SpawningNonBlock)));
}

#[test]
fn spawned_actor_replies_to_root() {
    let mut vm = Vm::new();
    let body = block(vec![Statement::Send(Expr::Root, sym("hello"))]);
    assert!(vm.run_statement(Statement::Expr(spawn(body))).is_ok());
    assert_eq!(received_symbol(&mut vm), Some("hello".to_string()));
    assert_eq!(received_symbol(&mut vm), None);
}

#[test]
fn ping_to_silent_actor_succeeds() {
    let mut vm = Vm::new();
    let body = block(vec![Statement::Expr(Expr::Receive)]);
    assert!(vm.run_statement(bind("a", spawn(body))).is_ok());
    assert!(vm.run_statement(Statement::Send(var("a"), sym("ping"))).is_ok());
    assert_eq!(received_symbol(&mut vm), None);
}

#[test]
fn forwarding_actor_returns_second_message() {
    let mut vm = Vm::new();
    let body = block(vec![
        Statement::Expr(Expr::Receive),
        Statement::Send(Expr::Root, Expr::Receive),
    ]);
    assert!(vm.run_statement(bind("b", spawn(body))).is_ok());
    assert!(vm.run_statement(Statement::Send(var("b"), sym("one"))).is_ok());
    assert_eq!(received_symbol(&mut vm), None);
    assert!(vm.run_statement(Statement::Send(var("b"), sym("ping"))).is_ok());
    assert_eq!(received_symbol(&mut vm), Some("ping".to_string()));
}

#[test]
fn lone_receive_deadlocks() {
    let mut vm = Vm::new();
    let r = vm.run_statement(Statement::Expr(Expr::Receive));
    assert!(matches!(r, Err(Error::RootDeadlock)));
}

#[test]
fn unbound_variable_is_named() {
    let mut vm = Vm::new();
    let r = vm.run_statement(Statement::Expr(var("x")));
    match r {
        Err(Error::UnboundVariable(n)) => assert_eq!(n, "x"),
        other => panic!("unexpected result {:?}", other),
    }
}

#[test]
fn sibling_binding_is_not_visible() {
    let mut vm = Vm::new();
    let body = block(vec![bind("x", sym("a")), Statement::Expr(Expr::Receive)]);
    assert!(vm.run_statement(bind("s", spawn(body))).is_ok());
    let r = vm.run_statement(Statement::Expr(var("x")));
    match r {
        Err(Error::UnboundVariable(n)) => assert_eq!(n, "x"),
        other => panic!("unexpected result {:?}", other),
    }
}

#[test]
fn rebinding_shadows() {
    let mut vm = Vm::new();
    assert!(vm.run_statement(bind("x", sym("a"))).is_ok());
    assert!(vm.run_statement(bind("x", sym("b"))).is_ok());
    assert!(vm.run_statement(Statement::Send(Expr::Root, var("x"))).is_ok());
    assert_eq!(received_symbol(&mut vm), Some("b".to_string()));
}

#[test]
fn closure_sees_later_binding_of_its_scope() {
    let mut vm = Vm::new();
    let f = block(vec![Statement::Send(Expr::Root, var("y"))]);
    assert!(vm.run_statement(bind("f", f)).is_ok());
    assert!(vm.run_statement(bind("y", sym("late"))).is_ok());
    assert!(vm.run_statement(Statement::Expr(spawn(var("f")))).is_ok());
    assert_eq!(received_symbol(&mut vm), Some("late".to_string()));
}

#[test]
fn messages_arrive_in_order() {
    let mut vm = Vm::new();
    let body = block(vec![
        Statement::Send(Expr::Root, sym("first")),
        Statement::Send(Expr::Root, sym("second")),
    ]);
    assert!(vm.run_statement(Statement::Expr(spawn(body))).is_ok());
    assert_eq!(received_symbol(&mut vm), Some("first".to_string()));
    assert_eq!(received_symbol(&mut vm), Some("second".to_string()));
    assert_eq!(received_symbol(&mut vm), None);
}

#[test]
fn spawn_evaluates_to_new_handle() {
    let mut vm = Vm::new();
    let body = block(vec![Statement::Expr(Expr::Receive)]);
    assert!(vm.run_statement(Statement::Send(Expr::Root, spawn(body))).is_ok());
    assert!(matches!(vm.receive(), Some(Value::ActorHandle(1))));
    assert!(matches!(vm.receive(), None));
}

#[test]
fn root_evaluates_to_handle_zero() {
    let mut vm = Vm::new();
    assert!(vm.run_statement(Statement::Send(Expr::Root, Expr::Root)).is_ok());
    assert!(matches!(vm.receive(), Some(Value::ActorHandle(0))));
}

#[test]
fn root_receives_its_own_message() {
    let mut vm = Vm::new();
    assert!(vm.run_statement(Statement::Send(Expr::Root, sym("self"))).is_ok());
    assert!(vm.run_statement(bind("m", Expr::Receive)).is_ok());
    assert!(vm.run_statement(Statement::Send(Expr::Root, var("m"))).is_ok());
    assert_eq!(received_symbol(&mut vm), Some("self".to_string()));
}

#[test]
fn round_limit_reports_unfinished_run() {
    let mut vm = Vm::new();
    let body = block(vec![Statement::Expr(sym("a")), Statement::Expr(sym("b"))]);
    let r = vm.run_statement_within(Statement::Expr(spawn(body)), 1);
    assert!(matches!(r, Ok(false)));
}

#[test]
fn default_scheduler_is_fresh() {
    let mut vm = Vm::default();
    assert!(matches!(vm.receive(), None));
    assert!(matches!(vm.run_statement(Statement::Expr(Expr::Receive)), Err(Error::RootDeadlock)));
}

#[test]
fn error_messages() {
    assert_eq!(Error::SendToNonActor.message(), "tried to send message to non-actor");
    assert_eq!(Error::UnboundVariable("x".to_string()).message(), "unbound variable: `x`");
    assert_eq!(Error::SpawningNonBlock.message(), "tried to spawn a non-block");
    assert_eq!(Error::RootDeadlock.message(), "root got into a deadlock");
}

#[test]
fn value_descriptions() {
    assert_eq!(Value::ActorHandle(0).describe(), "<actor 0>");
    assert_eq!(Value::ActorHandle(42).describe(), "<actor 42>");
    assert_eq!(Value::ActorHandle(u64::MAX).describe(), "<actor 18446744073709551615>");
    assert_eq!(Value::Symbol("hi".to_string()).describe(), "'hi");
    assert_eq!(Value::Closure(0, Vec::new()).describe(), "<closure ...>");
}

#[test]
fn forwarding_actor_relays_message() {
    let mut vm = Vm::new();
    let body = block(vec![Statement::Send(Expr::Root, Expr::Receive)]);
    assert!(vm.run_statement(bind("a", spawn(body))).is_ok());
    assert!(vm.run_statement(Statement::Send(var("a"), sym("kept"))).is_ok());
    assert_eq!(received_symbol(&mut vm), Some("kept".to_string()));
}

#[test]
fn closure_sent_as_message_can_be_spawned() {
    let mut vm = Vm::new();
    let spawner = block(vec![Statement::Expr(spawn(Expr::Receive))]);
    assert!(vm.run_statement(bind("s", spawn(spawner))).is_ok());
    let job = block(vec![Statement::Send(Expr::Root, sym("ran"))]);
    assert!(vm.run_statement(Statement::Send(var("s"), job)).is_ok());
    assert_eq!(received_symbol(&mut vm), Some("ran".to_string()));
}

#[test]
fn message_to_actor_spawned_in_same_statement_is_dropped() {
    let mut vm = Vm::new();
    let body = block(vec![Statement::Send(Expr::Root, Expr::Receive)]);
    assert!(vm.run_statement(Statement::Send(spawn(body), sym("lost"))).is_ok());
    assert_eq!(received_symbol(&mut vm), None);
}
