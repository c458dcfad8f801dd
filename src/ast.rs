use vstd::prelude::*;

verus! {

broadcast use vstd::std_specs::vec::group_vec_axioms;

/// An expression of the actor language.
#[derive(Debug)]
pub enum Expr {
    Var(String),
    Block(Vec<Statement>),
    Spawn(Box<Expr>),
    Receive,
    Symbol(String),
    Root,
}

/// A statement of the actor language.
#[derive(Debug)]
pub enum Statement {
    Bind(String, Expr),
    Send(Expr, Expr),
    Expr(Expr),
}

/// Mathematical model of an expression: names are character sequences.
pub enum ExprModel {
    Var(Seq<char>),
    Block(Seq<StatementModel>),
    Spawn(Box<ExprModel>),
    Receive,
    Symbol(Seq<char>),
    Root,
}

/// Mathematical model of a statement.
pub enum StatementModel {
    Bind(Seq<char>, ExprModel),
    Send(ExprModel, ExprModel),
    Expr(ExprModel),
}

pub open spec fn statements_view(s: Seq<Statement>) -> Seq<StatementModel>
    decreases s,
{
    if s.len() == 0 {
        Seq::empty()
    } else {
        statements_view(s.subrange(0, s.len() - 1)).push(s[s.len() - 1].view())
    }
}

pub proof fn lemma_statements_view(s: Seq<Statement>)
    ensures
        statements_view(s).len() == s.len(),
        forall|i: int| 0 <= i < s.len() ==> #[trigger] statements_view(s)[i] == s[i].view(),
    decreases s.len(),
{
    if s.len() > 0 {
        lemma_statements_view(s.subrange(0, s.len() - 1));
        assert forall|i: int| 0 <= i < s.len() implies #[trigger] statements_view(s)[i] == s[i].view() by {
            if i < s.len() - 1 {
                assert(s.subrange(0, s.len() - 1)[i] == s[i]);
            }
        }
    }
}

impl Expr {
    pub open spec fn view(&self) -> ExprModel
        decreases self,
    {
        match self {
            Expr::Var(n) => ExprModel::Var(n@),
            Expr::Block(v) => ExprModel::Block(statements_view(v@)),
            Expr::Spawn(b) => ExprModel::Spawn(Box::new((**b).view())),
            Expr::Receive => ExprModel::Receive,
            Expr::Symbol(s) => ExprModel::Symbol(s@),
            Expr::Root => ExprModel::Root,
        }
    }
}

impl Statement {
    pub open spec fn view(&self) -> StatementModel
        decreases self,
    {
        match self {
            Statement::Bind(n, e) => StatementModel::Bind(n@, e.view()),
            Statement::Send(t, v) => StatementModel::Send(t.view(), v.view()),
            Statement::Expr(e) => StatementModel::Expr(e.view()),
        }
    }
}

impl ExprModel {
    /// Number of messages this expression takes from the mailbox at its own level:
    /// a block or a spawn is opaque, a bare `Receive` takes one.
    pub open spec fn receive_count(self) -> nat {
        match self {
            ExprModel::Receive => 1,
            _ => 0,
        }
    }

    /// Number of messages that evaluating this expression takes from the current
    /// actor's mailbox: the operand of a spawn is evaluated by the spawning actor.
    pub open spec fn required_messages(self) -> nat
        decreases self,
    {
        match self {
            ExprModel::Receive => 1,
            ExprModel::Spawn(b) => b.required_messages(),
            _ => 0,
        }
    }
}

impl StatementModel {
    pub open spec fn receive_count(self) -> nat {
        match self {
            StatementModel::Bind(_, e) => e.receive_count(),
            StatementModel::Expr(e) => e.receive_count(),
            StatementModel::Send(t, v) => t.receive_count() + v.receive_count(),
        }
    }

    pub open spec fn required_messages(self) -> nat {
        match self {
            StatementModel::Bind(_, e) => e.required_messages(),
            StatementModel::Expr(e) => e.required_messages(),
            StatementModel::Send(t, v) => t.required_messages() + v.required_messages(),
        }
    }
}

pub proof fn lemma_required_at_most_one(e: ExprModel)
    ensures
        e.required_messages() <= 1,
        e.receive_count() <= e.required_messages(),
    decreases e,
{
    if let ExprModel::Spawn(b) = e {
        lemma_required_at_most_one(*b);
    }
}

impl Expr {
    pub fn receive_count(&self) -> (r: usize)
        ensures
            r == self.view().receive_count(),
    {
        match self {
            Expr::Receive => 1,
            _ => 0,
        }
    }

    pub fn required_messages(&self) -> (r: usize)
        ensures
            r == self.view().required_messages(),
        decreases self,
    {
        match self {
            Expr::Receive => 1,
            Expr::Spawn(b) => b.required_messages(),
            _ => 0,
        }
    }

    /// A structurally identical copy of this expression.
    pub fn duplicate(&self) -> (r: Expr)
        ensures
            r.view() == self.view(),
        decreases self,
    {
        match self {
            Expr::Var(n) => Expr::Var(n.clone()),
            Expr::Block(v) => Expr::Block(duplicate_statements(v)),
            Expr::Spawn(b) => Expr::Spawn(Box::new(b.duplicate())),
            Expr::Receive => Expr::Receive,
            Expr::Symbol(s) => Expr::Symbol(s.clone()),
            Expr::Root => Expr::Root,
        }
    }
}

impl Statement {
    pub fn receive_count(&self) -> (r: usize)
        ensures
            r == self.view().receive_count(),
    {
        match self {
            Statement::Bind(_, e) => e.receive_count(),
            Statement::Expr(e) => e.receive_count(),
            Statement::Send(t, v) => {
                proof {
                    lemma_required_at_most_one(t.view());
                    lemma_required_at_most_one(v.view());
                }
                t.receive_count() + v.receive_count()
            },
        }
    }

    pub fn required_messages(&self) -> (r: usize)
        ensures
            r == self.view().required_messages(),
    {
        match self {
            Statement::Bind(_, e) => e.required_messages(),
            Statement::Expr(e) => e.required_messages(),
            Statement::Send(t, v) => {
                proof {
                    lemma_required_at_most_one(t.view());
                    lemma_required_at_most_one(v.view());
                }
                t.required_messages() + v.required_messages()
            },
        }
    }

    /// A structurally identical copy of this statement.
    pub fn duplicate(&self) -> (r: Statement)
        ensures
            r.view() == self.view(),
        decreases self,
    {
        match self {
            Statement::Bind(n, e) => Statement::Bind(n.clone(), e.duplicate()),
            Statement::Send(t, v) => Statement::Send(t.duplicate(), v.duplicate()),
            Statement::Expr(e) => Statement::Expr(e.duplicate()),
        }
    }
}

/// A structurally identical copy of a statement sequence.
pub fn duplicate_statements(v: &Vec<Statement>) -> (r: Vec<Statement>)
    ensures
        statements_view(r@) == statements_view(v@),
    decreases v,
{
    let mut r: Vec<Statement> = Vec::new();
    let mut i: usize = 0;
    while i < v.len()
        invariant
            i <= v.len(),
            statements_view(r@) == statements_view(v@.subrange(0, i as int)),
        decreases v.len() - i,
    {
        let s = v[i].duplicate();
        proof {
            assert(v@.subrange(0, i + 1).subrange(0, i as int) =~= v@.subrange(0, i as int));
        }
        let ghost old_r = r@;
        r.push(s);
        proof {
            assert(r@.subrange(0, r@.len() - 1) =~= old_r);
        }
        i = i + 1;
    }
    proof {
        assert(v@.subrange(0, v@.len() as int) =~= v@);
    }
    r
}

} // verus!
