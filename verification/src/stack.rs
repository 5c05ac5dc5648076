//! The execution stack: a LIFO automaton that consumes a stream of tokens and
//! scope directives, drives `apply`, and manages nested child scopes.
//!
//! Policy for malformed scope nesting: an `End` with no open scope at any
//! enclosing level is ignored at the top level, and scopes still open when the
//! input is exhausted are discarded (their residual entries do not rejoin the
//! parent).

use vstd::prelude::*;
use crate::function::{
    lemma_apply_operands_preserved, lemma_apply_result_not_pair, spec_apply, spec_is_pair,
    DataItem, Function, Token,
};
use crate::scanner::Directive;

verus! {

/// Run a full event stream through a fresh evaluator and hand back the
/// residual tokens of the top level, in stack order.
pub trait Executable {
    fn execute(self) -> Vec<Token>;
}

/// The nested-scope automaton's state: an ordered sequence of tokens used as
/// a LIFO stack, and at most one exclusively-owned child scope.  A present
/// child means all new events are currently routed into that nested scope.
pub struct ExecutionStack {
    pub child: Option<Box<ExecutionStack>>,
    pub stack: Vec<Token>,
}

/// The message a child execution stack sends when it is done executing,
/// ready to be folded back into its parent.
pub struct Filicide;

/// The stack after one token lands on it: an empty stack simply receives the
/// token; otherwise the top entry is popped and applied to it.  A successful
/// application feeds its result token straight back in (which is what lets
/// chained reductions collapse in one pass); a failed one puts both operands
/// back, applier below its argument, without re-invoking `apply` on them.
pub open spec fn spec_push_mono(s: Seq<Token>, t: Token) -> Seq<Token>
    decreases s.len(),
{
    if s.len() == 0 {
        seq![t]
    } else {
        match spec_apply(s.last(), t) {
            Ok(result) => spec_push_mono(s.drop_last(), result),
            Err(pair) => s.drop_last().push(pair.0).push(pair.1),
        }
    }
}

/// The stack after an application result lands on it: a compound pair is
/// decomposed into its two tokens, first then second, each recursively; any
/// other token lands as `spec_push_mono` says.
pub open spec fn spec_push_app_result(s: Seq<Token>, t: Token) -> Seq<Token>
    decreases t,
{
    match t {
        Token::Datum(DataItem::Pair(p)) => spec_push_app_result(
            spec_push_app_result(s, (*p).0),
            (*p).1,
        ),
        _ => spec_push_mono(s, t),
    }
}

/// The stack after a closed child's residual tokens rejoin it: each token, in
/// original left-to-right order, is re-submitted individually, so
/// cross-boundary reductions happen naturally.
pub open spec fn spec_fold_entries(s: Seq<Token>, tokens: Seq<Token>) -> Seq<Token>
    decreases tokens.len(),
{
    if tokens.len() == 0 {
        s
    } else {
        spec_fold_entries(spec_push_mono(s, tokens.first()), tokens.drop_first())
    }
}

/// One event against a chain of scope frames, outermost first (each frame is
/// one level's entries).  Events travel to the innermost frame: a token lands
/// there, `Begin` opens a fresh frame, and `End` closes the innermost frame,
/// folding its entries into the frame above — or, at the outermost level,
/// yields `None`, the closure signal for the caller.
pub open spec fn spec_push_event(frames: Seq<Seq<Token>>, elt: Result<Token, Directive>) -> Option<
    Seq<Seq<Token>>,
>
    recommends
        frames.len() >= 1,
    decreases frames.len(),
{
    if frames.len() <= 1 {
        match elt {
            Ok(t) => Some(seq![spec_push_mono(frames[0], t)]),
            Err(Directive::Begin) => Some(seq![frames[0], Seq::empty()]),
            Err(Directive::End) => None,
        }
    } else {
        match spec_push_event(frames.drop_first(), elt) {
            Some(rest) => Some(seq![frames[0]] + rest),
            None => Some(seq![spec_fold_entries(frames[0], frames[1])]),
        }
    }
}

/// One event against a chain of scope frames, with an unmatched `End` at the
/// outermost level ignored.
pub open spec fn spec_step(frames: Seq<Seq<Token>>, elt: Result<Token, Directive>) -> Seq<
    Seq<Token>,
> {
    match spec_push_event(frames, elt) {
        Some(next) => next,
        None => frames,
    }
}

/// The scope frames after a whole event stream runs against a fresh
/// evaluator, in input order.
pub open spec fn spec_run_frames(events: Seq<Result<Token, Directive>>) -> Seq<Seq<Token>>
    decreases events.len(),
{
    if events.len() == 0 {
        seq![Seq::empty()]
    } else {
        spec_step(spec_run_frames(events.drop_last()), events.last())
    }
}

/// The final residual tokens of the top level after a whole event stream.
pub open spec fn spec_run(events: Seq<Result<Token, Directive>>) -> Seq<Token> {
    spec_run_frames(events)[0]
}

impl ExecutionStack {
    /// The chain of scope frames this stack represents: its own entries
    /// first, then the frames of its child scope, innermost last.
    pub open spec fn frames(self) -> Seq<Seq<Token>>
        decreases self,
    {
        match self.child {
            Some(c) => seq![self.stack@] + (*c).frames(),
            None => seq![self.stack@],
        }
    }
}

impl Default for ExecutionStack {
    /// A fresh, empty evaluator: no entries, no open child scope.
    fn default() -> (r: Self)
        ensures
            r.stack@ == Seq::<Token>::empty(),
            r.child is None,
    {
        ExecutionStack { child: None, stack: Vec::new() }
    }
}

impl ExecutionStack {
    /// Land one token on this level's stack, reducing against the top entry
    /// as far as applications succeed.  A compound pair lands whole here: the
    /// decomposition of reduction results is `push_application_result_token`'s
    /// business, and reductions themselves never produce a pair
    /// (`lemma_reduction_results_mono`).
    pub fn push_monotoken(&mut self, new_token: Token)
        ensures
            final(self).stack@ == spec_push_mono(old(self).stack@, new_token),
            final(self).child == old(self).child,
        decreases old(self).stack@.len(),
    {
        match self.stack.pop() {
            Some(function) => match function.apply(new_token) {
                Ok(result) => self.push_monotoken(result),
                Err((function, argument)) => {
                    // put them back on the stack: they did not combine.
                    // Importantly, this bypasses the push-then-apply path that
                    // would retry the failed application forever.
                    self.stack.push(function);
                    self.stack.push(argument);
                },
            },
            None => self.stack.push(new_token),
        }
    }

    /// Land an application result on this level's stack.  A reducer may
    /// return two tokens as `Datum(Pair(a, b))`; both are then added
    /// independently, `a` first, then `b`, each available for further
    /// reduction.
    pub fn push_application_result_token(&mut self, t: Token)
        ensures
            final(self).stack@ == spec_push_app_result(old(self).stack@, t),
            final(self).child == old(self).child,
        decreases t,
    {
        match t {
            Token::Datum(DataItem::Pair(p)) => {
                let (a, b) = *p;
                self.push_application_result_token(a);
                self.push_application_result_token(b);
            },
            other => self.push_monotoken(other),
        }
    }

    /// React to a scope directive at this level: `Begin` opens a fresh,
    /// exclusively-owned child scope (replacing any present one; callers only
    /// reach this with no child open); `End` signals closure of this level to
    /// its caller, leaving the state untouched.
    pub fn handle_directive(&mut self, directive: Directive) -> (r: Result<(), Filicide>)
        ensures
            match directive {
                Directive::Begin => r is Ok && final(self).stack == old(self).stack
                    && final(self).frames() == seq![old(self).stack@, Seq::<Token>::empty()],
                Directive::End => r is Err && *final(self) == *old(self),
            },
    {
        match directive {
            Directive::End => Err(Filicide),
            Directive::Begin => {
                self.child = Some(Box::new(ExecutionStack::default()));
                proof {
                    let c = self.child->Some_0;
                    assert((*c).frames() =~= seq![Seq::<Token>::empty()]);
                    assert(self.frames() =~= seq![old(self).stack@, Seq::<Token>::empty()]);
                }
                Ok(())
            },
        }
    }

    /// Route one event through the scope chain.  With a child open, the event
    /// is delegated to it; if the child reports closure, its residual tokens
    /// are folded back into this level one by one, in order, and the child is
    /// discarded.  With no child open, a token lands on this level's stack
    /// and a directive is handled here; `Err(Filicide)` comes back exactly
    /// when the event was an `End` this level could not delegate.
    pub fn push_newly_scanned_recursive(&mut self, elt: Result<Token, Directive>) -> (r: Result<
        (),
        Filicide,
    >)
        ensures
            r is Ok <==> spec_push_event(old(self).frames(), elt) is Some,
            r is Ok ==> Some(final(self).frames()) == spec_push_event(old(self).frames(), elt),
            r is Err ==> *final(self) == *old(self),
        decreases old(self).frames().len(),
    {
        // Take the child and make it do the work.
        let taken = self.child.take();
        match taken {
            Some(mut boxed_child) => {
                let ghost frames0 = old(self).frames();
                let ghost child_frames0 = (*boxed_child).frames();
                proof {
                    assert(frames0 == seq![old(self).stack@] + child_frames0);
                    assert(frames0.drop_first() =~= child_frames0);
                    assert(child_frames0[0] == (*boxed_child).stack@);
                }
                let child_result = boxed_child.push_newly_scanned_recursive(elt);
                match child_result {
                    Err(_) => {
                        // The child received an End it could not delegate: its
                        // entries move back into this level, added one by one
                        // so that applications across the boundary fire.
                        let ExecutionStack { stack: mut tokens, child: _ } = *boxed_child;
                        let ghost parent0 = self.stack@;
                        let ghost tokens0 = tokens@;
                        while tokens.len() > 0
                            invariant
                                self.child is None,
                                spec_fold_entries(parent0, tokens0) == spec_fold_entries(
                                    self.stack@,
                                    tokens@,
                                ),
                            decreases tokens@.len(),
                        {
                            let ghost pre = tokens@;
                            let t = tokens.remove(0);
                            proof {
                                assert(tokens@ =~= pre.drop_first());
                            }
                            self.push_monotoken(t);
                        }
                        proof {
                            assert(self.frames() =~= seq![
                                spec_fold_entries(frames0[0], frames0[1]),
                            ]);
                        }
                    },
                    Ok(_) => {
                        self.child = Some(boxed_child);
                        proof {
                            let rest = spec_push_event(child_frames0, elt)->Some_0;
                            assert(self.frames() =~= seq![frames0[0]] + rest);
                        }
                    },
                }
                Ok(())
            },
            None => {
                match elt {
                    Ok(token) => {
                        self.push_monotoken(token);
                        Ok(())
                    },
                    Err(directive) => self.handle_directive(directive),
                }
            },
        }
    }

    /// Route one event through the scope chain, ignoring the closure signal
    /// that only matters between nested levels: an unmatched `End` at this
    /// level leaves the state untouched.
    pub fn push_newly_scanned(&mut self, elt: Result<Token, Directive>)
        ensures
            final(self).frames() == spec_step(old(self).frames(), elt),
    {
        let _ = self.push_newly_scanned_recursive(elt);
    }
}

impl Executable for Vec<Result<Token, Directive>> {
    /// Feed the whole event stream, in order, to a fresh evaluator; the
    /// top-level entries that remain are the evaluation result.
    fn execute(self) -> (r: Vec<Token>)
        ensures
            r@ == spec_run(self@),
    {
        let ghost all_events = self@;
        let mut events = self;
        let mut evaluator = ExecutionStack::default();
        proof {
            assert(evaluator.frames() =~= spec_run_frames(all_events.take(0)));
        }
        while events.len() > 0
            invariant
                all_events.len() >= events.len(),
                events@ == all_events.skip(all_events.len() - events.len()),
                evaluator.frames() == spec_run_frames(
                    all_events.take(all_events.len() - events.len()),
                ),
            decreases events@.len(),
        {
            let ghost done = all_events.len() - events.len();
            let item = events.remove(0);
            evaluator.push_newly_scanned(item);
            proof {
                assert(all_events.take(done + 1).drop_last() =~= all_events.take(done));
                assert(all_events.take(done + 1).last() == all_events[done]);
                assert(events@ =~= all_events.skip(done + 1));
            }
        }
        proof {
            assert(all_events.take(all_events.len() as int) =~= all_events);
        }
        evaluator.stack
    }
}

/// Law: a reduction result re-enters the stack as a single token.  Since a
/// successful application never yields a compound pair
/// (`lemma_apply_result_not_pair`), landing it through
/// `spec_push_app_result` and through `spec_push_mono` is the same thing.
pub proof fn lemma_reduction_results_mono(s: Seq<Token>, a: Token, b: Token)
    requires
        spec_apply(a, b) is Ok,
    ensures
        spec_push_app_result(s, spec_apply(a, b)->Ok_0) == spec_push_mono(
            s,
            spec_apply(a, b)->Ok_0,
        ),
{
    lemma_apply_result_not_pair(a, b);
}

/// Law: no retry loop.  Pushing a callable, then an argument it rejects, then
/// the same argument again, stabilizes: the callable and the first rejected
/// argument both stay on the stack, and the failed application is never
/// retried (all three spec functions involved are total, so the stack
/// transition terminates on every input).
pub proof fn lemma_no_retry_loop(f: Function, x: Token)
    requires
        spec_apply(Token::Function(f), x) is Err,
    ensures
        spec_push_mono(seq![Token::Function(f)], x) == seq![Token::Function(f), x],
        spec_push_mono(seq![Token::Function(f), x], x) == seq![Token::Function(f), x, x],
{
    let s0 = seq![Token::Function(f)];
    assert(s0.last() == Token::Function(f));
    assert(spec_push_mono(s0, x) =~= seq![Token::Function(f), x]);
    let s1 = seq![Token::Function(f), x];
    assert(s1.last() == x);
    assert(spec_apply(x, x) is Err);
    assert(spec_push_mono(s1, x) =~= seq![Token::Function(f), x, x]);
}

/// Law: pair decomposition.  A compound pair lands as its two tokens, first
/// then second, each independently; in particular, on an empty stack two
/// tokens that do not combine end up as two separate entries in that order.
pub proof fn lemma_pair_decomposition(s: Seq<Token>, t: Token, a: Token, b: Token)
    requires
        t matches Token::Datum(DataItem::Pair(p)) && *p == (a, b),
    ensures
        spec_push_app_result(s, t) == spec_push_app_result(spec_push_app_result(s, a), b),
        (s.len() == 0 && !spec_is_pair(a) && !spec_is_pair(b) && spec_apply(a, b) == Err::<
            Token,
            (Token, Token),
        >((a, b))) ==> spec_push_app_result(s, t) == seq![a, b],
{
    if s.len() == 0 && !spec_is_pair(a) && !spec_is_pair(b) && spec_apply(a, b) == Err::<
        Token,
        (Token, Token),
    >((a, b)) {
        assert(spec_push_app_result(s, a) == spec_push_mono(s, a));
        assert(spec_push_mono(s, a) =~= seq![a]);
        assert(spec_push_app_result(seq![a], b) == spec_push_mono(seq![a], b));
        assert(seq![a].last() == a);
        assert(spec_push_mono(seq![a], b) =~= seq![a, b]);
    }
}

/// Law: scope isolation for tokens.  A token event only ever lands on the
/// innermost open scope: every enclosing frame, the top level included, is
/// left exactly as it was.
pub proof fn lemma_scope_isolation(frames: Seq<Seq<Token>>, t: Token)
    requires
        frames.len() >= 1,
    ensures
        spec_push_event(frames, Ok(t)) == Some(
            frames.update(frames.len() - 1, spec_push_mono(frames.last(), t)),
        ),
    decreases frames.len(),
{
    if frames.len() <= 1 {
        assert(seq![spec_push_mono(frames[0], t)] =~= frames.update(
            frames.len() - 1,
            spec_push_mono(frames.last(), t),
        ));
    } else {
        let rest = frames.drop_first();
        lemma_scope_isolation(rest, t);
        assert(rest.last() == frames.last());
        assert(seq![frames[0]] + rest.update(rest.len() - 1, spec_push_mono(frames.last(), t))
            =~= frames.update(frames.len() - 1, spec_push_mono(frames.last(), t)));
    }
}

/// Law: scope isolation for `Begin`.  Opening a scope adds one fresh, empty
/// frame inside the innermost one and touches no existing frame.
pub proof fn lemma_scope_begin(frames: Seq<Seq<Token>>)
    requires
        frames.len() >= 1,
    ensures
        spec_push_event(frames, Err(Directive::Begin)) == Some(frames.push(Seq::empty())),
    decreases frames.len(),
{
    if frames.len() <= 1 {
        assert(seq![frames[0], Seq::<Token>::empty()] =~= frames.push(Seq::empty()));
    } else {
        let rest = frames.drop_first();
        lemma_scope_begin(rest);
        assert(seq![frames[0]] + rest.push(Seq::empty()) =~= frames.push(Seq::empty()));
    }
}

/// Law: scope rejoin.  An `End` folds exactly the innermost frame into the
/// frame above it — its residual entries re-submitted left-to-right, free to
/// combine with whatever that frame already holds — and leaves every other
/// frame as it was.
pub proof fn lemma_scope_rejoin(frames: Seq<Seq<Token>>)
    requires
        frames.len() >= 2,
    ensures
        spec_push_event(frames, Err(Directive::End)) == Some(
            frames.take(frames.len() - 2).push(
                spec_fold_entries(frames[frames.len() - 2], frames[frames.len() - 1]),
            ),
        ),
    decreases frames.len(),
{
    let folded = spec_fold_entries(frames[frames.len() - 2], frames[frames.len() - 1]);
    if frames.len() == 2 {
        assert(spec_push_event(frames.drop_first(), Err::<Token, Directive>(Directive::End))
            is None);
        assert(seq![spec_fold_entries(frames[0], frames[1])] =~= frames.take(0).push(folded));
    } else {
        let rest = frames.drop_first();
        lemma_scope_rejoin(rest);
        assert(rest[rest.len() - 2] == frames[frames.len() - 2]);
        assert(rest[rest.len() - 1] == frames[frames.len() - 1]);
        assert(seq![frames[0]] + rest.take(rest.len() - 2).push(folded) =~= frames.take(
            frames.len() - 2,
        ).push(folded));
    }
}

/// Whether no entry of a stack is a compound pair.
pub open spec fn spec_pair_free(s: Seq<Token>) -> bool {
    forall|i: int| 0 <= i < s.len() ==> !spec_is_pair(#[trigger] s[i])
}

/// Law: a pair is never a terminal stack value.  Landing a non-pair token on
/// a pair-free stack keeps the stack pair-free: reductions never produce a
/// pair, and failures only hand the two operands back.
pub proof fn lemma_push_mono_pair_free(s: Seq<Token>, t: Token)
    requires
        spec_pair_free(s),
        !spec_is_pair(t),
    ensures
        spec_pair_free(spec_push_mono(s, t)),
    decreases s.len(),
{
    if s.len() > 0 {
        assert(!spec_is_pair(s.last()));
        match spec_apply(s.last(), t) {
            Ok(result) => {
                lemma_apply_result_not_pair(s.last(), t);
                assert(spec_pair_free(s.drop_last())) by {
                    assert(forall|i: int|
                        0 <= i < s.drop_last().len() ==> !spec_is_pair(
                            #[trigger] s.drop_last()[i],
                        ));
                }
                lemma_push_mono_pair_free(s.drop_last(), result);
            },
            Err(pair) => {
                lemma_apply_operands_preserved(s.last(), t);
                assert(spec_pair_free(s.drop_last().push(pair.0).push(pair.1))) by {
                    assert(forall|i: int|
                        0 <= i < s.drop_last().len() ==> !spec_is_pair(
                            #[trigger] s.drop_last()[i],
                        ));
                }
            },
        }
    }
}

/// Whether every frame of a scope chain is pair-free.
pub open spec fn spec_frames_pair_free(frames: Seq<Seq<Token>>) -> bool {
    forall|i: int| 0 <= i < frames.len() ==> spec_pair_free(#[trigger] frames[i])
}

/// Whether no token event of a stream carries a compound pair.
pub open spec fn spec_events_pair_free(events: Seq<Result<Token, Directive>>) -> bool {
    forall|i: int|
        0 <= i < events.len() ==> ((#[trigger] events[i]) matches Ok(t) ==> !spec_is_pair(t))
}

proof fn lemma_fold_entries_pair_free(s: Seq<Token>, tokens: Seq<Token>)
    requires
        spec_pair_free(s),
        spec_pair_free(tokens),
    ensures
        spec_pair_free(spec_fold_entries(s, tokens)),
    decreases tokens.len(),
{
    if tokens.len() > 0 {
        lemma_push_mono_pair_free(s, tokens.first());
        assert(spec_pair_free(tokens.drop_first())) by {
            assert(forall|i: int|
                0 <= i < tokens.drop_first().len() ==> !spec_is_pair(
                    #[trigger] tokens.drop_first()[i],
                ));
        }
        lemma_fold_entries_pair_free(spec_push_mono(s, tokens.first()), tokens.drop_first());
    }
}

proof fn lemma_push_event_pair_free(frames: Seq<Seq<Token>>, elt: Result<Token, Directive>)
    requires
        frames.len() >= 1,
        spec_frames_pair_free(frames),
        elt matches Ok(t) ==> !spec_is_pair(t),
    ensures
        spec_push_event(frames, elt) matches Some(fr) ==> spec_frames_pair_free(fr),
    decreases frames.len(),
{
    if frames.len() <= 1 {
        match elt {
            Ok(t) => {
                lemma_push_mono_pair_free(frames[0], t);
                assert(spec_frames_pair_free(seq![spec_push_mono(frames[0], t)]));
            },
            Err(Directive::Begin) => {
                assert(spec_pair_free(Seq::<Token>::empty()));
                assert(spec_frames_pair_free(seq![frames[0], Seq::<Token>::empty()]));
            },
            Err(Directive::End) => {},
        }
    } else {
        assert(spec_frames_pair_free(frames.drop_first())) by {
            assert(forall|i: int|
                0 <= i < frames.drop_first().len() ==> spec_pair_free(
                    #[trigger] frames.drop_first()[i],
                ));
        }
        lemma_push_event_pair_free(frames.drop_first(), elt);
        match spec_push_event(frames.drop_first(), elt) {
            Some(rest) => {
                assert(spec_frames_pair_free(seq![frames[0]] + rest)) by {
                    assert(forall|i: int|
                        0 <= i < (seq![frames[0]] + rest).len() ==> spec_pair_free(
                            #[trigger] (seq![frames[0]] + rest)[i],
                        ));
                }
            },
            None => {
                lemma_fold_entries_pair_free(frames[0], frames[1]);
                assert(spec_frames_pair_free(
                    seq![spec_fold_entries(frames[0], frames[1])],
                ));
            },
        }
    }
}

/// The scope chain never runs out of frames: every step leaves at least the
/// top level.
pub proof fn lemma_run_frames_nonempty(events: Seq<Result<Token, Directive>>)
    ensures
        spec_run_frames(events).len() >= 1,
    decreases events.len(),
{
    if events.len() > 0 {
        lemma_run_frames_nonempty(events.drop_last());
    }
}

/// Law: a pair is never a terminal stack value.  As long as the event stream
/// itself carries no compound pair (and the scanner never produces one), no
/// frame ever holds one: reducers' pairs are decomposed before they land.
pub proof fn lemma_run_pair_free(events: Seq<Result<Token, Directive>>)
    requires
        spec_events_pair_free(events),
    ensures
        spec_pair_free(spec_run(events)),
    decreases events.len(),
{
    lemma_run_frames_pair_free(events);
    lemma_run_frames_nonempty(events);
}

proof fn lemma_run_frames_pair_free(events: Seq<Result<Token, Directive>>)
    requires
        spec_events_pair_free(events),
    ensures
        spec_frames_pair_free(spec_run_frames(events)),
    decreases events.len(),
{
    if events.len() == 0 {
        assert(spec_pair_free(Seq::<Token>::empty()));
        assert(spec_frames_pair_free(seq![Seq::<Token>::empty()]));
    } else {
        assert(spec_events_pair_free(events.drop_last())) by {
            assert(forall|i: int|
                0 <= i < events.drop_last().len() ==> ((#[trigger] events.drop_last()[i])
                    matches Ok(t) ==> !spec_is_pair(t)));
        }
        lemma_run_frames_pair_free(events.drop_last());
        lemma_run_frames_nonempty(events.drop_last());
        assert(events.last() matches Ok(t) ==> !spec_is_pair(t));
        lemma_push_event_pair_free(spec_run_frames(events.drop_last()), events.last());
    }
}

} // verus!
