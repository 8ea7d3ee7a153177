//! The transaction engine: the operation contract, the runner, and the
//! all-or-nothing guarantee.

use vstd::prelude::*;

verus! {

/// Result of applying a single operation.
pub type TxResult = Result<(), TxError>;

/// Error carried out of a failed operation: a short human-readable reason.
#[derive(Debug)]
pub struct TxError {
    description: &'static str,
}

impl View for TxError {
    type V = Seq<char>;

    closed spec fn view(&self) -> Seq<char> {
        self.description@
    }
}

impl TxError {
    /// Wraps a reason string into an error value.
    pub fn new(description: &'static str) -> (r: Self)
        ensures
            r@ == description@,
    {
        TxError { description }
    }

    /// The reason this error was raised with.
    pub fn description(&self) -> (r: &'static str)
        ensures
            r@ == self@,
    {
        self.description
    }
}

/// A reversible unit of mutation on a shared state of type `TxState`.
///
/// `apply` is the forward effect and `rollback` its exact compensating
/// inverse. An implementation describes itself with three spec functions:
/// `enabled` says on which states `apply` succeeds, `effect` gives the state
/// a successful `apply` produces, and `undo` gives the state `rollback`
/// produces. The proof obligation `undo_inverts` ties them together: undoing
/// a successful effect restores the state bit for bit.
pub trait TxOp: Sized {
    /// The shared-state type this operation mutates.
    type TxState;

    /// Whether `apply` succeeds on `s`.
    spec fn enabled(&self, s: Self::TxState) -> bool;

    /// The state a successful `apply` leaves behind, starting from `s`.
    spec fn effect(&self, s: Self::TxState) -> Self::TxState;

    /// The state `rollback` leaves behind, starting from `s`.
    spec fn undo(&self, s: Self::TxState) -> Self::TxState;

    /// The reason reported when `apply` fails.
    spec fn failure_reason(&self) -> Seq<char>;

    /// Law: `rollback` exactly inverts a successful `apply`.
    proof fn undo_inverts(&self, s: Self::TxState)
        requires
            self.enabled(s),
        ensures
            self.undo(self.effect(s)) == s,
    ;

    /// Applies this operation to `state`. On states where the operation is
    /// enabled it succeeds and performs `effect`; on all others it fails with
    /// `failure_reason` and leaves the state untouched.
    fn apply(&self, state: &mut Self::TxState) -> (r: TxResult)
        ensures
            self.enabled(*old(state)) ==> r is Ok && *final(state) == self.effect(*old(state)),
            !self.enabled(*old(state)) ==> (r matches Err(e) && e@ == self.failure_reason())
                && *final(state) == *old(state),
    ;

    /// Undoes this operation. It is only ever invoked on a state that a
    /// successful `apply` of this operation produced, and it restores the
    /// state that `apply` started from.
    fn rollback(&self, state: &mut Self::TxState)
        requires
            exists|p: Self::TxState| self.enabled(p) && self.effect(p) == *old(state),
        ensures
            *final(state) == self.undo(*old(state)),
    ;
}

/// Whether every operation in `ops`, taken in order from state `s`, is
/// enabled on the state the ones before it produce.
pub open spec fn all_enabled<Op: TxOp>(ops: Seq<Op>, s: Op::TxState) -> bool
    decreases ops.len(),
{
    ops.len() == 0 || (ops[0].enabled(s) && all_enabled(ops.drop_first(), ops[0].effect(s)))
}

/// The state produced by applying every operation in `ops` in order,
/// starting from `s`.
pub open spec fn apply_all<Op: TxOp>(ops: Seq<Op>, s: Op::TxState) -> Op::TxState
    decreases ops.len(),
{
    if ops.len() == 0 {
        s
    } else {
        apply_all(ops.drop_first(), ops[0].effect(s))
    }
}

/// The state produced by undoing every operation in `ops` in reverse order
/// (last applied, first undone), starting from `s`.
pub open spec fn undo_all<Op: TxOp>(ops: Seq<Op>, s: Op::TxState) -> Op::TxState
    decreases ops.len(),
{
    if ops.len() == 0 {
        s
    } else {
        undo_all(ops.drop_last(), ops.last().undo(s))
    }
}

/// The length of the longest leading prefix of `ops` whose operations all
/// succeed, one after the other, starting from `s`.
pub open spec fn completed_count<Op: TxOp>(ops: Seq<Op>, s: Op::TxState) -> nat
    decreases ops.len(),
{
    if ops.len() == 0 {
        0
    } else if !ops[0].enabled(s) {
        0
    } else {
        1 + completed_count(ops.drop_first(), ops[0].effect(s))
    }
}

/// The state a whole transaction leaves behind: fully applied when every
/// operation succeeds, untouched otherwise.
pub open spec fn outcome_state<Op: TxOp>(ops: Seq<Op>, s: Op::TxState) -> Op::TxState {
    if all_enabled(ops, s) {
        apply_all(ops, s)
    } else {
        s
    }
}

/// Applying a non-empty sequence is applying all but the last operation,
/// then the last one.
pub proof fn lemma_apply_all_snoc<Op: TxOp>(ops: Seq<Op>, s: Op::TxState)
    requires
        ops.len() > 0,
    ensures
        apply_all(ops, s) == ops.last().effect(apply_all(ops.drop_last(), s)),
    decreases ops.len(),
{
    let rest = ops.drop_first();
    let e0 = ops[0].effect(s);
    if ops.len() == 1 {
        assert(rest =~= Seq::<Op>::empty());
        assert(ops.drop_last() =~= Seq::<Op>::empty());
        assert(apply_all(ops, s) == apply_all(rest, e0));
        assert(apply_all(rest, e0) == e0);
        assert(apply_all(ops.drop_last(), s) == s);
        assert(ops.last() == ops[0]);
    } else {
        lemma_apply_all_snoc(rest, e0);
        assert(rest.len() > 0);
        assert(ops.drop_last().drop_first() =~= rest.drop_last());
        assert(ops.drop_last()[0] == ops[0]);
        assert(apply_all(ops.drop_last(), s) == apply_all(rest.drop_last(), e0));
        assert(ops.last() == rest.last());
        assert(apply_all(ops, s) == apply_all(rest, e0));
    }
}

/// A non-empty sequence is enabled throughout exactly when all but the last
/// operation are, and the last one is enabled on the state they produce.
pub proof fn lemma_all_enabled_snoc<Op: TxOp>(ops: Seq<Op>, s: Op::TxState)
    requires
        ops.len() > 0,
    ensures
        all_enabled(ops, s) <==> (all_enabled(ops.drop_last(), s) && ops.last().enabled(
            apply_all(ops.drop_last(), s),
        )),
    decreases ops.len(),
{
    let rest = ops.drop_first();
    let e0 = ops[0].effect(s);
    if ops.len() == 1 {
        assert(rest =~= Seq::<Op>::empty());
        assert(ops.drop_last() =~= Seq::<Op>::empty());
        assert(all_enabled(ops, s) <==> (ops[0].enabled(s) && all_enabled(rest, e0)));
        assert(all_enabled(rest, e0));
        assert(all_enabled(ops.drop_last(), s));
        assert(apply_all(ops.drop_last(), s) == s);
        assert(ops.last() == ops[0]);
    } else {
        lemma_all_enabled_snoc(rest, e0);
        assert(rest.len() > 0);
        assert(ops.drop_last().drop_first() =~= rest.drop_last());
        assert(ops.drop_last()[0] == ops[0]);
        assert(apply_all(ops.drop_last(), s) == apply_all(rest.drop_last(), e0));
        assert(ops.last() == rest.last());
        assert(all_enabled(ops, s) <==> (ops[0].enabled(s) && all_enabled(rest, e0)));
        assert(all_enabled(ops.drop_last(), s) <==> (ops[0].enabled(s) && all_enabled(
            rest.drop_last(),
            e0,
        )));
    }
}

/// Within a sequence that is enabled throughout, the operation at index `k`
/// is enabled on the state the first `k` operations produce.
pub proof fn lemma_all_enabled_at<Op: TxOp>(ops: Seq<Op>, s: Op::TxState, k: int)
    requires
        all_enabled(ops, s),
        0 <= k < ops.len(),
    ensures
        ops[k].enabled(apply_all(ops.take(k), s)),
    decreases ops.len(),
{
    let rest = ops.drop_first();
    let e0 = ops[0].effect(s);
    if k == 0 {
        assert(ops.take(0) =~= Seq::<Op>::empty());
    } else {
        lemma_all_enabled_at(rest, e0, k - 1);
        assert(rest.take(k - 1) =~= ops.take(k).drop_first());
        assert(ops.take(k)[0] == ops[0]);
    }
}

/// `completed_count` is pinned down by its two defining facts: the prefix of
/// length `c` is enabled throughout, and the operation at `c` (when there is
/// one) is not enabled on the state that prefix produces.
pub proof fn lemma_completed_count_char<Op: TxOp>(ops: Seq<Op>, s: Op::TxState, c: int)
    requires
        0 <= c <= ops.len(),
        all_enabled(ops.take(c), s),
        c < ops.len() ==> !ops[c].enabled(apply_all(ops.take(c), s)),
    ensures
        completed_count(ops, s) == c,
    decreases ops.len(),
{
    let rest = ops.drop_first();
    if c == 0 {
        if ops.len() > 0 {
            assert(ops.take(0) =~= Seq::<Op>::empty());
        }
    } else {
        let e0 = ops[0].effect(s);
        assert(ops.take(c)[0] == ops[0]);
        assert(rest.take(c - 1) =~= ops.take(c).drop_first());
        lemma_completed_count_char(rest, e0, c - 1);
    }
}

/// When every operation in `ops` is enabled from `s`, undoing them in
/// reverse order of application restores `s` exactly. This is the rollback
/// pass of the runner: compensations run innermost-first, and that order is
/// what makes the compensated state equal the initial one.
pub proof fn lemma_reverse_rollback_restores<Op: TxOp>(ops: Seq<Op>, s: Op::TxState)
    requires
        all_enabled(ops, s),
    ensures
        undo_all(ops, apply_all(ops, s)) == s,
    decreases ops.len(),
{
    if ops.len() > 0 {
        let front = ops.drop_last();
        let x = apply_all(front, s);
        lemma_all_enabled_snoc(ops, s);
        lemma_apply_all_snoc(ops, s);
        ops.last().undo_inverts(x);
        lemma_reverse_rollback_restores(front, s);
    }
}

/// Runs one transaction: applies `ops` to `state` in order, and on the first
/// failure compensates the successful prefix in reverse order before
/// reporting how many operations had completed and why the next one failed.
///
/// The caller holds `state` exclusively (a mutable borrow admits no other
/// observer), so no one can see the intermediate states: after the call the
/// state is either fully applied or exactly as it was.
#[verifier::loop_isolation(false)]
pub fn run<Op: TxOp>(ops: &Vec<Op>, state: &mut Op::TxState) -> (r: Result<
    (),
    (usize, TxError),
>)
    ensures
        r is Ok <==> all_enabled(ops@, *old(state)),
        *final(state) == outcome_state(ops@, *old(state)),
        r is Ok ==> *final(state) == apply_all(ops@, *old(state)),
        r is Err ==> *final(state) == *old(state),
        r matches Err((completed, e)) ==> completed == completed_count(ops@, *old(state))
            && completed < ops@.len() && e@ == ops@[completed as int].failure_reason(),
{
    let mut completed: usize = 0;
    let mut failure: Option<TxError> = None;
    let mut i: usize = 0;

    // Apply phase: run the operations in order, stopping at the first
    // failure.
    while i < ops.len() && failure.is_none()
        invariant
            completed <= i <= ops@.len(),
            all_enabled(ops@.take(completed as int), *old(state)),
            *state == apply_all(ops@.take(completed as int), *old(state)),
            failure is None ==> completed == i,
            failure matches Some(e) ==> completed < ops@.len() && !ops@[completed as int].enabled(
                apply_all(ops@.take(completed as int), *old(state)),
            ) && e@ == ops@[completed as int].failure_reason(),
        decreases ops@.len() - i,
    {
        match ops[i].apply(state) {
            Err(e) => {
                failure = Some(e);
            },
            _ => {
                proof {
                    let pre = ops@.take(i as int);
                    let ext = ops@.take(i as int + 1);
                    assert(ext.drop_last() =~= pre);
                    assert(ext.last() == ops@[i as int]);
                    lemma_apply_all_snoc(ext, *old(state));
                    lemma_all_enabled_snoc(ext, *old(state));
                }
                completed = completed + 1;
            },
        }
        i = i + 1;
    }

    match failure {
        None => {
            proof {
                assert(ops@.take(completed as int) =~= ops@);
            }
            Ok(())
        },
        Some(e) => {
            // Compensation phase: undo the successful prefix, last applied
            // first.
            let mut j: usize = completed;
            while j > 0
                invariant
                    j <= completed,
                    *state == apply_all(ops@.take(j as int), *old(state)),
                decreases j,
            {
                proof {
                    let prefix = ops@.take(completed as int);
                    lemma_all_enabled_at(prefix, *old(state), j - 1);
                    assert(prefix[j - 1] == ops@[j - 1]);
                    assert(prefix.take(j - 1) =~= ops@.take(j - 1));
                    let cur = ops@.take(j as int);
                    assert(cur.drop_last() =~= ops@.take(j - 1));
                    assert(cur.last() == ops@[j - 1]);
                    lemma_apply_all_snoc(cur, *old(state));
                    let w = apply_all(ops@.take(j - 1), *old(state));
                    assert(ops@[j - 1].enabled(w) && ops@[j - 1].effect(w) == *state);
                }
                let ghost pre_rollback = *state;
                ops[j - 1].rollback(state);
                proof {
                    let w = apply_all(ops@.take(j - 1), *old(state));
                    ops@[j - 1].undo_inverts(w);
                    assert(*state == ops@[j - 1].undo(pre_rollback));
                    assert(*state == w);
                }
                j = j - 1;
            }
            proof {
                assert(ops@.take(0) =~= Seq::<Op>::empty());
                lemma_completed_count_char(ops@, *old(state), completed as int);
                assert(!all_enabled(ops@, *old(state))) by {
                    if all_enabled(ops@, *old(state)) {
                        lemma_all_enabled_at(ops@, *old(state), completed as int);
                    }
                }
            }
            Err((completed, e))
        },
    }
}

} // verus!
