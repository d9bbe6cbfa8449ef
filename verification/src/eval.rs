//! The evaluator.
//!
//! An evaluator walks a tree one step at a time. After every step it tells
//! its host what it needs: nothing, a computation on real numbers, the text
//! of some pieces, or output. The host answers with the next step. In this
//! way the rules of the language are all decided here, while arithmetic and
//! output stay with the host.

use vstd::prelude::*;
use crate::ast::{Tree, TreeView, ParseError, NodeView, leaf, spec_ast};
use crate::lexer::LexemView;
use crate::machine::{
    Control, ControlView, EvalError, EvalErrorView, Frame, FrameView, MachineView, Move,
    MoveView, PendingView, Reply, ReplyView, Request, RequestView, frames_view,
};
use crate::rules::{
    after_move, answer_pending, frame_fits, lemma_moves_fit, move_fits, pending_fits,
    resume_frame, start, step,
};
use crate::value::{Bindings, Environment, RValue, RValueView, bind};

verus! {

/// The state of one evaluation: the variables, the nodes that wait for one
/// of their children, and what happens at the next step.
pub struct Evaluator<'a> {
    vars: Environment,
    stack: Vec<Frame<'a>>,
    control: Control<'a>,
}

impl<'a> View for Evaluator<'a> {
    type V = MachineView;

    closed spec fn view(&self) -> MachineView {
        MachineView {
            vars: self.vars@,
            stack: frames_view(self.stack@),
            control: self.control@,
        }
    }
}

/// Whether every waiting node of the state has the children that its rule
/// reads.
pub open spec fn fits(m: MachineView) -> bool {
    &&& forall|i: int| 0 <= i < m.stack.len() ==> frame_fits(#[trigger] m.stack[i])
    &&& m.control is Waiting ==> pending_fits(m.control->Waiting_0)
}

/// The evaluator after at most `fuel` further steps that ask nothing of
/// the host, and what it asks then.
pub open spec fn run(m: MachineView, reply: ReplyView, fuel: nat) -> (MachineView, RequestView)
    decreases fuel,
{
    let next = step(m, reply);
    if fuel == 0 || next.1 != RequestView::Continue {
        next
    } else {
        run(next.0, ReplyView::Nothing, (fuel - 1) as nat)
    }
}

/// What the evaluator asks, step by step, while the host gives the answers
/// `replies` in order.
pub open spec fn course(m: MachineView, replies: Seq<ReplyView>) -> Seq<RequestView>
    decreases replies.len(),
{
    if replies.len() == 0 {
        Seq::empty()
    } else {
        let next = step(m, replies[0]);
        seq![next.1] + course(next.0, replies.drop_first())
    }
}

/// The state of an evaluator that is about to start on `tree` with the
/// variables `vars`.
pub open spec fn starting(tree: TreeView, vars: Bindings) -> MachineView {
    MachineView { vars, stack: Seq::empty(), control: ControlView::Evaluate(tree) }
}

/// Evaluation is repeatable: two evaluations of the tree of the same
/// tokens, with the same variables and the same answers of the host, ask
/// the same of the host at every step, and so end with the same outcome.
pub proof fn lemma_repeatable(
    tokens: Seq<LexemView>,
    first: TreeView,
    second: TreeView,
    vars: Bindings,
    replies: Seq<ReplyView>,
)
    requires
        spec_ast(tokens, 0, tokens.len() as int) == Ok::<
            TreeView,
            ParseError,
        >(first),
        spec_ast(tokens, 0, tokens.len() as int) == Ok::<
            TreeView,
            ParseError,
        >(second),
    ensures
        course(starting(first, vars), replies) == course(starting(second, vars), replies),
{
}


/// A step keeps the state fit.
pub proof fn lemma_step_fits(m: MachineView, reply: ReplyView)
    requires
        fits(m),
    ensures
        fits(step(m, reply).0),
{
    match m.control {
        ControlView::Evaluate(tree) => {
            lemma_moves_fit(
                tree,
                FrameView::Message,
                PendingView::Message,
                RValueView::Void,
                reply,
                m.vars,
            );
        },
        ControlView::Deliver(v) => {
            if m.stack.len() > 0 {
                lemma_moves_fit(
                    leaf(NodeView::Nothing, true),
                    m.stack.last(),
                    PendingView::Message,
                    v,
                    reply,
                    m.vars,
                );
                let below = m.stack.drop_last();
                assert forall|i: int| 0 <= i < below.len() implies frame_fits(
                    #[trigger] below[i],
                ) by {
                    assert(below[i] == m.stack[i]);
                }
            }
        },
        ControlView::Waiting(pending) => {
            lemma_moves_fit(
                leaf(NodeView::Nothing, true),
                FrameView::Message,
                pending,
                RValueView::Void,
                reply,
                m.vars,
            );
        },
        ControlView::Halted => {},
    }
}

impl<'a> Evaluator<'a> {
    /// Every waiting node has the children that its rule reads.
    #[verifier::type_invariant]
    spec fn fit(self) -> bool {
        fits(self@)
    }

    /// An evaluator that is about to start on `tree`, without variables.
    pub fn from_tree(tree: &'a Tree) -> (r: Evaluator<'a>)
        ensures
            r@ == (MachineView {
                vars: Seq::empty(),
                stack: Seq::empty(),
                control: ControlView::Evaluate(tree@),
            }),
    {
        let r = Evaluator {
            vars: Environment::new(),
            stack: Vec::new(),
            control: Control::Evaluate(tree),
        };
        assert(frames_view(r.stack@) =~= Seq::<FrameView>::empty());
        r
    }

    /// An evaluator that has ended, without variables.
    fn ended() -> (r: Evaluator<'a>)
        ensures
            r@ == (MachineView {
                vars: Seq::empty(),
                stack: Seq::empty(),
                control: ControlView::Halted,
            }),
    {
        let r = Evaluator { vars: Environment::new(), stack: Vec::new(), control: Control::Halted };
        assert(frames_view(r.stack@) =~= Seq::<FrameView>::empty());
        r
    }

    /// Takes the state out of the evaluator.
    fn take(&mut self) -> (r: (Environment, Vec<Frame<'a>>, Control<'a>))
        ensures
            r.0@ == old(self)@.vars,
            frames_view(r.1@) == old(self)@.stack,
            r.2@ == old(self)@.control,
            fits(old(self)@),
    {
        proof {
            use_type_invariant(&*self);
        }
        let mut taken = Evaluator::ended();
        core::mem::swap(self, &mut taken);
        let Evaluator { vars, stack, control } = taken;
        (vars, stack, control)
    }

    /// Assigns `value` to the variable `varname`.
    pub fn set_var(&mut self, varname: String, value: RValue)
        ensures
            final(self)@ == (MachineView {
                vars: bind(old(self)@.vars, varname@, value@),
                ..old(self)@
            }),
    {
        let (mut vars, stack, control) = self.take();
        vars.insert(varname, value);
        *self = Evaluator { vars, stack, control };
    }

    /// The variables.
    pub fn vars(&self) -> (r: &Environment)
        ensures
            r@ == self@.vars,
    {
        &self.vars
    }

    /// The evaluator after a move, and what it asks of the host.
    fn moved(vars: Environment, stack: Vec<Frame<'a>>, mv: Move<'a>) -> (r: (Evaluator<'a>, Request))
        requires
            move_fits(mv@),
            forall|i: int|
                0 <= i < stack.len() ==> frame_fits(#[trigger] frames_view(stack@)[i]),
        ensures
            (r.0@, r.1@) == after_move(frames_view(stack@), vars@, mv@),
    {
        let mut stack = stack;
        let ghost before = frames_view(stack@);
        match mv {
            Move::Descend(frame, tree) => {
                stack.push(frame);
                assert(frames_view(stack@) =~= before.push(frame@));
                (Evaluator { vars, stack, control: Control::Evaluate(tree) }, Request::Continue)
            },
            Move::Jump(tree) => (
                Evaluator { vars, stack, control: Control::Evaluate(tree) },
                Request::Continue,
            ),
            Move::Yield(v) => (
                Evaluator { vars, stack, control: Control::Deliver(v) },
                Request::Continue,
            ),
            Move::Ask(request, pending) => (
                Evaluator { vars, stack, control: Control::Waiting(pending) },
                request,
            ),
            Move::Fail(e) => {
                let stack: Vec<Frame<'a>> = Vec::new();
                assert(frames_view(stack@) =~= Seq::<FrameView>::empty());
                (Evaluator { vars, stack, control: Control::Halted }, Request::Finished(Err(e)))
            },
        }
    }

    /// Takes one step: starts on a node, hands a value to the node that
    /// waits for it, or takes the answer of the host. The result tells
    /// what the host is to do before the next step.
    pub fn step(&mut self, reply: Reply) -> (request: Request)
        ensures
            (final(self)@, request@) == step(old(self)@, reply@),
    {
        let (mut vars, mut stack, control) = self.take();
        let ghost before = frames_view(stack@);
        let (next, request) = match control {
            Control::Evaluate(tree) => {
                proof {
                    lemma_moves_fit(
                        tree@,
                        FrameView::Message,
                        PendingView::Message,
                        RValueView::Void,
                        reply@,
                        vars@,
                    );
                }
                let mv = start(tree, &mut vars);
                Evaluator::moved(vars, stack, mv)
            },
            Control::Deliver(v) => {
                match stack.pop() {
                    None => {
                        assert(before.len() == 0);
                        (
                            Evaluator { vars, stack, control: Control::Halted },
                            Request::Finished(Ok(v)),
                        )
                    },
                    Some(frame) => {
                        assert(frames_view(stack@) =~= before.drop_last());
                        assert(frame@ == before.last());
                        proof {
                            assert(frame_fits(before[before.len() - 1]));
                            lemma_moves_fit(
                                leaf(NodeView::Nothing, true),
                                frame@,
                                PendingView::Message,
                                v@,
                                reply@,
                                vars@,
                            );
                            assert forall|i: int|
                                0 <= i < frames_view(stack@).len() implies frame_fits(
                                #[trigger] frames_view(stack@)[i],
                            ) by {
                                assert(frames_view(stack@)[i] == before[i]);
                            }
                        }
                        let mv = resume_frame(frame, v, &mut vars);
                        Evaluator::moved(vars, stack, mv)
                    },
                }
            },
            Control::Waiting(pending) => {
                proof {
                    lemma_moves_fit(
                        leaf(NodeView::Nothing, true),
                        FrameView::Message,
                        pending@,
                        RValueView::Void,
                        reply@,
                        vars@,
                    );
                }
                let mv = answer_pending(pending, reply, &vars);
                Evaluator::moved(vars, stack, mv)
            },
            Control::Halted => (
                Evaluator { vars, stack, control: Control::Halted },
                Request::Finished(Err(EvalError::Halted)),
            ),
        };
        *self = next;
        request
    }

    /// Evaluates until the host is needed: takes a step with the answer
    /// `reply`, and then up to `fuel` further steps as long as nothing is
    /// asked of the host.
    pub fn eval(&mut self, reply: Reply, fuel: usize) -> (request: Request)
        ensures
            (final(self)@, request@) == run(old(self)@, reply@, fuel as nat),
    {
        let mut request = self.step(reply);
        let mut left = fuel;
        while left > 0 && matches!(request, Request::Continue)
            invariant
                left <= fuel,
                left > 0 ==> run(old(self)@, reply@, fuel as nat) == (if request@
                    == RequestView::Continue {
                    run(self@, ReplyView::Nothing, (left - 1) as nat)
                } else {
                    (self@, request@)
                }),
                left == 0 ==> run(old(self)@, reply@, fuel as nat) == (self@, request@),
            decreases left,
        {
            request = self.step(Reply::Nothing);
            left -= 1;
        }
        request
    }
}

} // verus!
