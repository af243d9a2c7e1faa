//! Evaluation of syntax trees.
//!
//! Running commands is the caller's work; this module decides what runs
//! next. An [`Evaluation`] walks the tree: it hands out one command or
//! pipeline at a time, and from the outcome of each decides what comes next:
//! `&&` runs its right side only after success, `||` only after failure,
//! neither once an exit was requested; a `;` list runs its items in turn,
//! turns a failing item into status 3 and stops once an exit was requested.

use vstd::prelude::*;

use crate::parser::{asts_view, commands_view, lemma_asts_view_len, Ast, AstV, Command, CommandV};

verus! {

/// Evaluates syntax trees.
pub struct Executor;

impl Executor {
    pub fn new() -> (e: Executor) {
        Executor
    }

    /// Starts evaluating a tree; see [`Evaluation::start`].
    pub fn start(&self, ast: Ast) -> (r: (Evaluation, Step))
        ensures
            r.0.frames() == drive(seq![], Pending::Descend(ast@), false).0,
            r.1@ == drive(seq![], Pending::Descend(ast@), false).1,
    {
        Evaluation::start(ast)
    }
}

/// What is left to do once the current command finishes.
pub enum Frame {
    /// The right side of `&&`.
    AndIfRight(Ast),
    /// The right side of `||`.
    OrIfRight(Ast),
    /// The items of a `;` list still to run, the next one first.
    SequenceRest(Vec<Ast>),
}

/// The value of a [`Frame`].
pub enum FrameV {
    AndIfRight(AstV),
    OrIfRight(AstV),
    SequenceRest(Seq<AstV>),
}

impl View for Frame {
    type V = FrameV;

    open spec fn view(&self) -> FrameV {
        match self {
            Frame::AndIfRight(a) => FrameV::AndIfRight(a@),
            Frame::OrIfRight(a) => FrameV::OrIfRight(a@),
            Frame::SequenceRest(v) => FrameV::SequenceRest(asts_view(v@)),
        }
    }
}

/// What the caller is to do next.
#[derive(Debug)]
pub enum Step {
    /// Run this command and report its outcome.
    RunCommand(Command),
    /// Run this pipeline and report its outcome.
    RunPipeline(Vec<Command>),
    /// The tree is done, with this status.
    Finished(i32),
    /// The tree failed with the error of the last command run.
    Failed,
}

/// The value of a [`Step`].
pub enum StepV {
    RunCommand(CommandV),
    RunPipeline(Seq<CommandV>),
    Finished(i32),
    Failed,
}

impl View for Step {
    type V = StepV;

    open spec fn view(&self) -> StepV {
        match self {
            Step::RunCommand(c) => StepV::RunCommand(c@),
            Step::RunPipeline(cs) => StepV::RunPipeline(commands_view(cs@)),
            Step::Finished(s) => StepV::Finished(*s),
            Step::Failed => StepV::Failed,
        }
    }
}

/// How the command or pipeline handed out last went.
#[derive(Debug, Clone, Copy, PartialEq, Eq, Structural)]
pub enum Outcome {
    /// It ran with this status; the flag says whether an exit is requested.
    Completed { status: i32, exit_requested: bool },
    /// It failed with an error; the flag says whether an exit is requested.
    Failed { exit_requested: bool },
}

/// What the walk does next: go into a tree, hand a status back to the
/// enclosing frame, or hand an error back.
pub enum Pending {
    Descend(AstV),
    Return(i32),
    Raise,
}

// ---------------------------------------------------------------------------
// The meaning of evaluation
// ---------------------------------------------------------------------------

/// The size of a tree, so that every move of the walk makes progress.
pub open spec fn ast_size(a: AstV) -> nat
    decreases a,
{
    match a {
        AstV::Command(_) => 1,
        AstV::Pipeline(_) => 1,
        AstV::AndIf(l, r) => ast_size(*l) + ast_size(*r) + 2,
        AstV::OrIf(l, r) => ast_size(*l) + ast_size(*r) + 2,
        AstV::Sequence(items) => items_size(items) + 2,
    }
}

pub open spec fn items_size(s: Seq<AstV>) -> nat
    decreases s,
{
    if s.len() == 0 {
        0
    } else {
        ast_size(s[0]) + 1 + items_size(s.drop_first())
    }
}

pub open spec fn frame_weight(f: FrameV) -> nat {
    match f {
        FrameV::AndIfRight(a) => ast_size(a) + 1,
        FrameV::OrIfRight(a) => ast_size(a) + 1,
        FrameV::SequenceRest(rest) => items_size(rest) + 1,
    }
}

pub open spec fn stack_weight(stack: Seq<FrameV>) -> nat
    decreases stack.len(),
{
    if stack.len() == 0 {
        0
    } else {
        stack_weight(stack.drop_last()) + frame_weight(stack.last())
    }
}

pub open spec fn pending_weight(p: Pending) -> nat {
    match p {
        Pending::Descend(a) => ast_size(a),
        Pending::Return(_) => 0,
        Pending::Raise => 1,
    }
}

pub open spec fn measure(stack: Seq<FrameV>, p: Pending) -> nat {
    stack_weight(stack) + pending_weight(p)
}

pub proof fn lemma_stack_push(stack: Seq<FrameV>, f: FrameV)
    ensures
        stack_weight(stack.push(f)) == stack_weight(stack) + frame_weight(f),
{
    assert(stack.push(f).drop_last() == stack);
}

/// One move of the walk: the new frames and what is pending next.
pub open spec fn advance(stack: Seq<FrameV>, p: Pending, exit: bool) -> (Seq<FrameV>, Pending) {
    match p {
        Pending::Descend(AstV::AndIf(l, r)) => (stack.push(FrameV::AndIfRight(*r)), Pending::Descend(*l)),
        Pending::Descend(AstV::OrIf(l, r)) => (stack.push(FrameV::OrIfRight(*r)), Pending::Descend(*l)),
        Pending::Descend(AstV::Sequence(items)) => if items.len() == 0 {
            (stack, Pending::Return(0))
        } else {
            (stack.push(FrameV::SequenceRest(items.drop_first())), Pending::Descend(items[0]))
        },
        Pending::Return(s) => match stack.last() {
            FrameV::AndIfRight(r) => if s == 0 && !exit {
                (stack.drop_last(), Pending::Descend(r))
            } else {
                (stack.drop_last(), Pending::Return(s))
            },
            FrameV::OrIfRight(r) => if s != 0 && !exit {
                (stack.drop_last(), Pending::Descend(r))
            } else {
                (stack.drop_last(), Pending::Return(s))
            },
            FrameV::SequenceRest(rest) => if exit || rest.len() == 0 {
                (stack.drop_last(), Pending::Return(s))
            } else {
                (stack.drop_last().push(FrameV::SequenceRest(rest.drop_first())), Pending::Descend(rest[0]))
            },
        },
        Pending::Raise => match stack.last() {
            FrameV::SequenceRest(_) => (stack, Pending::Return(3)),
            _ => (stack.drop_last(), Pending::Raise),
        },
        _ => (stack, p),
    }
}

/// The move stops the walk: a command or pipeline to run, or the end.
pub open spec fn stops(stack: Seq<FrameV>, p: Pending) -> bool {
    match p {
        Pending::Descend(AstV::Command(_)) => true,
        Pending::Descend(AstV::Pipeline(_)) => true,
        Pending::Return(_) => stack.len() == 0,
        Pending::Raise => stack.len() == 0,
        _ => false,
    }
}

/// The step the walk stops at.
pub open spec fn stop_step(p: Pending) -> StepV {
    match p {
        Pending::Descend(AstV::Command(c)) => StepV::RunCommand(c),
        Pending::Descend(AstV::Pipeline(cs)) => StepV::RunPipeline(cs),
        Pending::Return(s) => StepV::Finished(s),
        _ => StepV::Failed,
    }
}

/// A move that absorbs an error: a `;` list takes it as status 3.
pub open spec fn absorbs(stack: Seq<FrameV>, p: Pending) -> bool {
    p is Raise && stack.len() > 0 && stack.last() is SequenceRest
}

pub proof fn lemma_items_size_first(items: Seq<AstV>)
    requires
        items.len() > 0,
    ensures
        items_size(items) == ast_size(items[0]) + 1 + items_size(items.drop_first()),
{
}

/// Every move that does not stop makes progress.
pub proof fn lemma_advance_progress(stack: Seq<FrameV>, p: Pending, exit: bool)
    requires
        !stops(stack, p),
    ensures
        measure(advance(stack, p, exit).0, advance(stack, p, exit).1) < measure(stack, p),
{
    let (s2, p2) = advance(stack, p, exit);
    match p {
        Pending::Descend(a) => {
            match a {
                AstV::AndIf(l, r) => {
                    lemma_stack_push(stack, FrameV::AndIfRight(*r));
                    assert(s2 == stack.push(FrameV::AndIfRight(*r)));
                    assert(p2 == Pending::Descend(*l));
                    assert(pending_weight(p) == ast_size(*l) + ast_size(*r) + 2);
                    assert(measure(s2, p2) < measure(stack, p));
                },
                AstV::OrIf(l, r) => {
                    lemma_stack_push(stack, FrameV::OrIfRight(*r));
                    assert(s2 == stack.push(FrameV::OrIfRight(*r)));
                    assert(p2 == Pending::Descend(*l));
                },
                AstV::Sequence(items) => {
                    if items.len() > 0 {
                        lemma_stack_push(stack, FrameV::SequenceRest(items.drop_first()));
                        assert(items_size(items) == ast_size(items[0]) + 1 + items_size(items.drop_first()));
                        assert(measure(s2, p2) < measure(stack, p));
                    } else {
                        assert(measure(s2, p2) < measure(stack, p));
                    }
                },
                _ => {
                    assert(measure(s2, p2) < measure(stack, p));
                },
            }
        },
        Pending::Return(s) => {
            assert(stack.len() > 0);
            assert(stack_weight(stack) == stack_weight(stack.drop_last()) + frame_weight(stack.last()));
            match stack.last() {
                FrameV::SequenceRest(rest) => {
                    if !(exit || rest.len() == 0) {
                        lemma_stack_push(stack.drop_last(), FrameV::SequenceRest(rest.drop_first()));
                    }
                },
                _ => {},
            }
        },
        Pending::Raise => {
            assert(stack.len() > 0);
            assert(stack_weight(stack) == stack_weight(stack.drop_last()) + frame_weight(stack.last()));
        },
    }
}

/// Walks until a command or pipeline is to run or the tree is done: the
/// frames left, the step, and whether an error was absorbed on the way.
pub open spec fn drive(stack: Seq<FrameV>, p: Pending, exit: bool) -> (Seq<FrameV>, StepV, bool)
    decreases measure(stack, p),
{
    if stops(stack, p) {
        (stack, stop_step(p), false)
    } else {
        proof {
            lemma_advance_progress(stack, p, exit);
        }
        let (s2, p2) = advance(stack, p, exit);
        let r = drive(s2, p2, exit);
        (r.0, r.1, r.2 || absorbs(stack, p))
    }
}

/// What the outcome of a command makes pending.
pub open spec fn outcome_pending(o: Outcome) -> Pending {
    match o {
        Outcome::Completed { status, .. } => Pending::Return(status),
        Outcome::Failed { .. } => Pending::Raise,
    }
}

pub open spec fn outcome_exit(o: Outcome) -> bool {
    match o {
        Outcome::Completed { exit_requested, .. } => exit_requested,
        Outcome::Failed { exit_requested } => exit_requested,
    }
}

// ---------------------------------------------------------------------------
// Direct evaluation, and the walk fed with outcomes
// ---------------------------------------------------------------------------

/// How evaluating a tree ends: with a status and whether an exit is
/// requested, with an error and whether an exit is requested, or not yet,
/// for want of the outcome of a command.
pub enum Evaluated {
    Status(i32, bool),
    Error(bool),
    Unfinished,
}

/// Evaluates a tree directly, taking the outcomes of the commands and
/// pipelines it runs from `outs` in order: what it ends with, and the
/// outcomes left. `exit` says whether an exit is requested so far.
pub open spec fn eval_tree(a: AstV, outs: Seq<Outcome>, exit: bool) -> (Evaluated, Seq<Outcome>)
    decreases ast_size(a), 0nat,
{
    match a {
        AstV::Command(_) | AstV::Pipeline(_) => if outs.len() == 0 {
            (Evaluated::Unfinished, outs)
        } else {
            match outs[0] {
                Outcome::Completed { status, exit_requested } => (
                    Evaluated::Status(status, exit_requested),
                    outs.drop_first(),
                ),
                Outcome::Failed { exit_requested } => (Evaluated::Error(exit_requested), outs.drop_first()),
            }
        },
        AstV::AndIf(l, r) => {
            let (rl, rest) = eval_tree(*l, outs, exit);
            match rl {
                Evaluated::Status(s, e) => if s == 0 && !e {
                    eval_tree(*r, rest, e)
                } else {
                    (rl, rest)
                },
                _ => (rl, rest),
            }
        },
        AstV::OrIf(l, r) => {
            let (rl, rest) = eval_tree(*l, outs, exit);
            match rl {
                Evaluated::Status(s, e) => if s != 0 && !e {
                    eval_tree(*r, rest, e)
                } else {
                    (rl, rest)
                },
                _ => (rl, rest),
            }
        },
        AstV::Sequence(items) => if items.len() == 0 {
            (Evaluated::Status(0, exit), outs)
        } else {
            eval_items_from(items, outs, exit)
        },
    }
}

/// Evaluates the items of a `;` list from the first one on: a failing item
/// counts as status 3, and the list stops after the last item or once an
/// exit is requested, with the status of the item run last.
pub open spec fn eval_items_from(items: Seq<AstV>, outs: Seq<Outcome>, exit: bool) -> (Evaluated, Seq<Outcome>)
    decreases items_size(items), 0nat,
{
    if items.len() == 0 {
        (Evaluated::Status(0, exit), outs)
    } else {
        let (r, rest) = eval_tree(items[0], outs, exit);
        match r {
            Evaluated::Status(s, e) => eval_items_after(items.drop_first(), s, e, rest),
            Evaluated::Error(e) => eval_items_after(items.drop_first(), 3, e, rest),
            Evaluated::Unfinished => (r, rest),
        }
    }
}

/// Goes on with the items of a `;` list after an item ended with status `s`.
pub open spec fn eval_items_after(rest: Seq<AstV>, s: i32, e: bool, outs: Seq<Outcome>) -> (Evaluated, Seq<Outcome>)
    decreases items_size(rest), 1nat,
{
    if e || rest.len() == 0 {
        (Evaluated::Status(s, e), outs)
    } else {
        eval_items_from(rest, outs, e)
    }
}

/// The walk fed with outcomes: from frames and pending work, drives to the
/// next step and, while a command or pipeline is to run, resumes with the
/// next outcome of `outs`, until the tree is done or failed.
pub open spec fn run_walk(stack: Seq<FrameV>, p: Pending, exit: bool, outs: Seq<Outcome>) -> Evaluated
    decreases outs.len(),
{
    let d = drive(stack, p, exit);
    match d.1 {
        StepV::Finished(s) => Evaluated::Status(s, exit),
        StepV::Failed => Evaluated::Error(exit),
        _ => if outs.len() == 0 {
            Evaluated::Unfinished
        } else {
            run_walk(d.0, outcome_pending(outs[0]), outcome_exit(outs[0]), outs.drop_first())
        },
    }
}

/// What the frames make of the end of a tree evaluated below them.
pub open spec fn continue_walk(stack: Seq<FrameV>, r: (Evaluated, Seq<Outcome>)) -> Evaluated {
    match r.0 {
        Evaluated::Status(s, e) => run_walk(stack, Pending::Return(s), e, r.1),
        Evaluated::Error(e) => run_walk(stack, Pending::Raise, e, r.1),
        Evaluated::Unfinished => Evaluated::Unfinished,
    }
}

proof fn lemma_run_walk_step(stack: Seq<FrameV>, p: Pending, exit: bool, outs: Seq<Outcome>)
    requires
        !stops(stack, p),
    ensures
        run_walk(stack, p, exit, outs) == run_walk(advance(stack, p, exit).0, advance(stack, p, exit).1, exit, outs),
{
    lemma_advance_progress(stack, p, exit);
    let (s2, p2) = advance(stack, p, exit);
    assert(drive(stack, p, exit).0 == drive(s2, p2, exit).0);
    assert(drive(stack, p, exit).1 == drive(s2, p2, exit).1);
}

proof fn lemma_walk_tree(stack: Seq<FrameV>, a: AstV, exit: bool, outs: Seq<Outcome>)
    ensures
        run_walk(stack, Pending::Descend(a), exit, outs) == continue_walk(stack, eval_tree(a, outs, exit)),
    decreases ast_size(a), 0nat,
{
    match a {
        AstV::Command(_) | AstV::Pipeline(_) => {
            assert(stops(stack, Pending::Descend(a)));
        },
        AstV::AndIf(l, r) => {
            let st = stack.push(FrameV::AndIfRight(*r));
            lemma_run_walk_step(stack, Pending::Descend(a), exit, outs);
            lemma_walk_tree(st, *l, exit, outs);
            let (rl, rest) = eval_tree(*l, outs, exit);
            assert(st.drop_last() == stack);
            match rl {
                Evaluated::Status(s, e) => {
                    lemma_run_walk_step(st, Pending::Return(s), e, rest);
                    if s == 0 && !e {
                        lemma_walk_tree(stack, *r, e, rest);
                    }
                },
                Evaluated::Error(e) => {
                    lemma_run_walk_step(st, Pending::Raise, e, rest);
                },
                Evaluated::Unfinished => {},
            }
        },
        AstV::OrIf(l, r) => {
            let st = stack.push(FrameV::OrIfRight(*r));
            lemma_run_walk_step(stack, Pending::Descend(a), exit, outs);
            lemma_walk_tree(st, *l, exit, outs);
            let (rl, rest) = eval_tree(*l, outs, exit);
            assert(st.drop_last() == stack);
            match rl {
                Evaluated::Status(s, e) => {
                    lemma_run_walk_step(st, Pending::Return(s), e, rest);
                    if s != 0 && !e {
                        lemma_walk_tree(stack, *r, e, rest);
                    }
                },
                Evaluated::Error(e) => {
                    lemma_run_walk_step(st, Pending::Raise, e, rest);
                },
                Evaluated::Unfinished => {},
            }
        },
        AstV::Sequence(items) => {
            lemma_run_walk_step(stack, Pending::Descend(a), exit, outs);
            if items.len() > 0 {
                lemma_walk_items_from(stack, items, exit, outs);
            }
        },
    }
}

proof fn lemma_walk_items_from(stack: Seq<FrameV>, items: Seq<AstV>, exit: bool, outs: Seq<Outcome>)
    requires
        items.len() > 0,
    ensures
        run_walk(stack.push(FrameV::SequenceRest(items.drop_first())), Pending::Descend(items[0]), exit, outs)
            == continue_walk(stack, eval_items_from(items, outs, exit)),
    decreases items_size(items), 0nat,
{
    let st = stack.push(FrameV::SequenceRest(items.drop_first()));
    lemma_items_size_first(items);
    lemma_walk_tree(st, items[0], exit, outs);
    let (r, rest) = eval_tree(items[0], outs, exit);
    match r {
        Evaluated::Status(s, e) => {
            lemma_walk_items_after(stack, items.drop_first(), s, e, rest);
        },
        Evaluated::Error(e) => {
            lemma_run_walk_step(st, Pending::Raise, e, rest);
            lemma_walk_items_after(stack, items.drop_first(), 3, e, rest);
        },
        Evaluated::Unfinished => {},
    }
}

proof fn lemma_walk_items_after(stack: Seq<FrameV>, rest: Seq<AstV>, s: i32, e: bool, outs: Seq<Outcome>)
    ensures
        run_walk(stack.push(FrameV::SequenceRest(rest)), Pending::Return(s), e, outs)
            == continue_walk(stack, eval_items_after(rest, s, e, outs)),
    decreases items_size(rest), 1nat,
{
    let st = stack.push(FrameV::SequenceRest(rest));
    lemma_run_walk_step(st, Pending::Return(s), e, outs);
    assert(st.drop_last() == stack);
    if !(e || rest.len() == 0) {
        lemma_walk_items_from(stack, rest, e, outs);
    }
}

/// Law: evaluating a tree step by step, resuming after each command or
/// pipeline with its outcome, ends exactly as evaluating the tree directly
/// with the same outcomes: `&&` runs its right side only after status 0,
/// `||` only after another status, neither once an exit is requested; an
/// error leaves the tree unless a `;` list takes it as status 3; a `;` list
/// stops once an exit is requested and ends with the status of the item
/// run last.
pub proof fn law_walk_matches_direct_evaluation(a: AstV, outs: Seq<Outcome>)
    ensures
        run_walk(seq![], Pending::Descend(a), false, outs) == eval_tree(a, outs, false).0,
{
    lemma_walk_tree(seq![], a, false, outs);
}

pub open spec fn frames_view(s: Seq<Frame>) -> Seq<FrameV> {
    s.map_values(|f: Frame| f@)
}


/// Work pending in the walk.
pub enum PendingExec {
    Descend(Ast),
    Return(i32),
    Raise,
}

impl View for PendingExec {
    type V = Pending;

    open spec fn view(&self) -> Pending {
        match self {
            PendingExec::Descend(a) => Pending::Descend(a@),
            PendingExec::Return(s) => Pending::Return(*s),
            PendingExec::Raise => Pending::Raise,
        }
    }
}

pub proof fn lemma_asts_view_drop_first(s: Seq<Ast>)
    requires
        s.len() > 0,
    ensures
        asts_view(s.drop_first()) == asts_view(s).drop_first(),
        asts_view(s)[0] == s[0]@,
{
    lemma_asts_view_len(s);
    lemma_asts_view_len(s.drop_first());
    assert(asts_view(s.drop_first()) =~= asts_view(s).drop_first());
}

/// The evaluation of one syntax tree: the frames of the walk.
pub struct Evaluation {
    stack: Vec<Frame>,
}

impl Evaluation {
    /// The frames of the walk, innermost last.
    pub closed spec fn frames(&self) -> Seq<FrameV> {
        frames_view(self.stack@)
    }

    /// Starts evaluating `ast`: walks into it up to the first command or
    /// pipeline to run, or to the end.
    pub fn start(ast: Ast) -> (r: (Evaluation, Step))
        ensures
            r.0.frames() == drive(seq![], Pending::Descend(ast@), false).0,
            r.1@ == drive(seq![], Pending::Descend(ast@), false).1,
    {
        let mut e = Evaluation { stack: Vec::new() };
        assert(e.frames() =~= Seq::<FrameV>::empty());
        let (step, _) = e.drive(PendingExec::Descend(ast), false);
        (e, step)
    }

    /// Continues after the command or pipeline handed out last, given how
    /// it went. The flag says whether an error was turned into status 3 by
    /// a `;` list on the way, so the caller can report it.
    pub fn resume(&mut self, outcome: Outcome) -> (r: (Step, bool))
        ensures
            ({
                let d = drive(old(self).frames(), outcome_pending(outcome), outcome_exit(outcome));
                &&& final(self).frames() == d.0
                &&& r.0@ == d.1
                &&& r.1 == d.2
            }),
    {
        match outcome {
            Outcome::Completed { status, exit_requested } => self.drive(
                PendingExec::Return(status),
                exit_requested,
            ),
            Outcome::Failed { exit_requested } => self.drive(PendingExec::Raise, exit_requested),
        }
    }

    fn push_frame(&mut self, f: Frame)
        ensures
            final(self).frames() == old(self).frames().push(f@),
    {
        self.stack.push(f);
        assert(frames_view(self.stack@) =~= frames_view(old(self).stack@).push(f@));
    }

    fn pop_frame(&mut self) -> (f: Option<Frame>)
        ensures
            old(self).frames().len() == 0 ==> (f is None && final(self).frames() == old(self).frames()),
            old(self).frames().len() > 0 ==> (f matches Some(fr) && fr@ == old(self).frames().last()
                && final(self).frames() == old(self).frames().drop_last()),
    {
        let f = self.stack.pop();
        assert(frames_view(self.stack@) =~= if old(self).stack@.len() > 0 {
            frames_view(old(self).stack@).drop_last()
        } else {
            frames_view(old(self).stack@)
        });
        f
    }

    fn drive(&mut self, start: PendingExec, exit: bool) -> (r: (Step, bool))
        ensures
            ({
                let d = drive(old(self).frames(), start@, exit);
                &&& final(self).frames() == d.0
                &&& r.0@ == d.1
                &&& r.1 == d.2
            }),
    {
        let ghost p0 = start@;
        let ghost f0 = self.frames();
        let ghost goal = drive(f0, p0, exit);
        let mut pending = start;
        let mut absorbed = false;
        loop
            invariant
                goal == drive(f0, p0, exit),
                f0 == old(self).frames(),
                p0 == start@,
                goal.0 == drive(self.frames(), pending@, exit).0,
                goal.1 == drive(self.frames(), pending@, exit).1,
                goal.2 == (absorbed || drive(self.frames(), pending@, exit).2),
            decreases measure(self.frames(), pending@),
        {
            let ghost st = self.frames();
            let ghost pv = pending@;
            proof {
                if !stops(st, pv) {
                    lemma_advance_progress(st, pv, exit);
                }
            }
            match pending {
                PendingExec::Descend(Ast::Command(c)) => {
                    return (Step::RunCommand(c), absorbed);
                },
                PendingExec::Descend(Ast::Pipeline { commands }) => {
                    return (Step::RunPipeline(commands), absorbed);
                },
                PendingExec::Descend(Ast::AndIf { left, right }) => {
                    self.push_frame(Frame::AndIfRight(*right));
                    pending = PendingExec::Descend(*left);
                },
                PendingExec::Descend(Ast::OrIf { left, right }) => {
                    self.push_frame(Frame::OrIfRight(*right));
                    pending = PendingExec::Descend(*left);
                },
                PendingExec::Descend(Ast::Sequence(items)) => {
                    proof {
                        lemma_asts_view_len(items@);
                    }
                    if items.len() == 0 {
                        pending = PendingExec::Return(0);
                    } else {
                        let mut rest = items;
                        let ghost whole = rest@;
                        proof {
                            lemma_asts_view_drop_first(whole);
                        }
                        let first = rest.remove(0);
                        assert(rest@ == whole.drop_first());
                        self.push_frame(Frame::SequenceRest(rest));
                        pending = PendingExec::Descend(first);
                    }
                },
                PendingExec::Return(s) => {
                    match self.pop_frame() {
                        None => {
                            return (Step::Finished(s), absorbed);
                        },
                        Some(Frame::AndIfRight(r)) => {
                            if s == 0 && !exit {
                                pending = PendingExec::Descend(r);
                            } else {
                                pending = PendingExec::Return(s);
                            }
                        },
                        Some(Frame::OrIfRight(r)) => {
                            if s != 0 && !exit {
                                pending = PendingExec::Descend(r);
                            } else {
                                pending = PendingExec::Return(s);
                            }
                        },
                        Some(Frame::SequenceRest(rest)) => {
                            if exit || rest.len() == 0 {
                                pending = PendingExec::Return(s);
                            } else {
                                let mut rest = rest;
                                let ghost whole = rest@;
                                proof {
                                    lemma_asts_view_drop_first(whole);
                                }
                                let next = rest.remove(0);
                                assert(rest@ == whole.drop_first());
                                self.push_frame(Frame::SequenceRest(rest));
                                pending = PendingExec::Descend(next);
                            }
                        },
                    }
                },
                PendingExec::Raise => {
                    match self.pop_frame() {
                        None => {
                            return (Step::Failed, absorbed);
                        },
                        Some(Frame::SequenceRest(rest)) => {
                            self.push_frame(Frame::SequenceRest(rest));
                            assert(self.frames() =~= st);
                            absorbed = true;
                            pending = PendingExec::Return(3);
                        },
                        Some(_) => {
                            pending = PendingExec::Raise;
                        },
                    }
                },
            }
            assert(advance(st, pv, exit) == (self.frames(), pending@));
        }
    }
}

} // verus!
