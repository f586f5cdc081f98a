use crate::error::Error;
use crate::extension::Extension;
use crate::hooks::Hook;
use crate::host::Host;
use crate::module_loader::ModuleLoader;
use vstd::prelude::*;

verus! {

/// The answers among `outcomes`, in their order: what is left when the
/// failures are dropped.
pub open spec fn successes<R>(outcomes: Seq<Result<R, Error>>) -> Seq<R> {
    outcomes.filter_map(
        |o: Result<R, Error>|
            match o {
                Ok(r) => Some(r),
                Err(_) => None,
            },
    )
}

/// Fan-out: of the outcomes of all extensions that were called, in the
/// order of the registry, the answers of those that succeeded. A failure
/// of one extension fails nothing, and no extension at all gives no answer
/// at all.
pub fn hook_parallel<R>(outcomes: Vec<Result<R, Error>>) -> (out: Vec<R>)
    ensures
        out@ == successes(outcomes@),
{
    let mut out: Vec<R> = Vec::new();
    let ghost all = outcomes@;
    for outcome in iter: outcomes
        invariant
            iter.seq() == all,
            out@ == successes(all.take(iter.index() as int)),
    {
        proof {
            all.lemma_filter_map_take_succ(
                |o: Result<R, Error>|
                    match o {
                        Ok(r) => Some(r),
                        Err(_) => None,
                    },
                iter.index() as int,
            );
        }
        match outcome {
            Ok(r) => {
                out.push(r);
            },
            Err(_) => {},
        }
    }
    proof {
        assert(all.take(all.len() as int) == all);
    }
    out
}

/// The answers are as many as the extensions that succeeded, they stand in
/// the order in which those extensions were called, and each is the answer
/// of one of them.
pub proof fn lemma_successes_keep_order<R>(outcomes: Seq<Result<R, Error>>)
    ensures
        successes(outcomes).len() <= outcomes.len(),
        forall|k: int|
            0 <= k < successes(outcomes).len() ==> outcomes.contains(
                Ok(#[trigger] successes(outcomes)[k]),
            ),
        forall|i: int, j: int|
            #![trigger outcomes[i], outcomes[j]]
            0 <= i < j < outcomes.len() && outcomes[i] is Ok && outcomes[j] is Ok ==> exists|
                a: int,
                b: int,
            |
                0 <= a < b < successes(outcomes).len() && Ok::<R, Error>(successes(outcomes)[a])
                    == outcomes[i] && Ok::<R, Error>(successes(outcomes)[b]) == outcomes[j],
        forall|i: int|
            0 <= i < outcomes.len() && (#[trigger] outcomes[i]) is Ok ==> exists|a: int|
                0 <= a < successes(outcomes).len() && Ok::<R, Error>(successes(outcomes)[a])
                    == outcomes[i],
    decreases outcomes.len(),
{
    if outcomes.len() > 0 {
        let rest = outcomes.drop_last();
        let last = outcomes.last();
        lemma_successes_keep_order(rest);
        let got = successes(outcomes);
        let before = successes(rest);
        assert(got == before + match last {
            Ok(r) => seq![r],
            Err(_) => Seq::empty(),
        });
        assert forall|k: int| 0 <= k < got.len() implies outcomes.contains(
            Ok(#[trigger] got[k]),
        ) by {
            if k < before.len() {
                assert(rest.contains(Ok(before[k])));
                let i = choose|i: int| 0 <= i < rest.len() && rest[i] == Ok::<R, Error>(before[k]);
                assert(outcomes[i] == rest[i]);
            } else {
                assert(outcomes[outcomes.len() - 1] == last);
            }
        }
        assert forall|i: int| 0 <= i < outcomes.len() && (#[trigger] outcomes[i]) is Ok implies exists|
            a: int,
        |
            0 <= a < got.len() && Ok::<R, Error>(got[a]) == outcomes[i] by {
            if i < rest.len() {
                assert(rest[i] == outcomes[i]);
                let a = choose|a: int|
                    0 <= a < before.len() && Ok::<R, Error>(before[a]) == rest[i];
                assert(got[a] == before[a]);
            } else {
                assert(Ok::<R, Error>(got[got.len() - 1]) == outcomes[i]);
            }
        }
        assert forall|i: int, j: int|
            #![trigger outcomes[i], outcomes[j]]
            0 <= i < j < outcomes.len() && outcomes[i] is Ok && outcomes[j] is Ok implies exists|
            a: int,
            b: int,
        |
            0 <= a < b < got.len() && Ok::<R, Error>(got[a]) == outcomes[i] && Ok::<R, Error>(
                got[b],
            ) == outcomes[j] by {
            assert(rest[i] == outcomes[i]);
            if j < rest.len() {
                assert(rest[j] == outcomes[j]);
                let (a, b) = choose|a: int, b: int|
                    0 <= a < b < before.len() && Ok::<R, Error>(before[a]) == rest[i] && Ok::<
                        R,
                        Error,
                    >(before[b]) == rest[j];
                assert(got[a] == before[a] && got[b] == before[b]);
            } else {
                let a = choose|a: int|
                    0 <= a < before.len() && Ok::<R, Error>(before[a]) == rest[i];
                assert(got[a] == before[a]);
                assert(Ok::<R, Error>(got[got.len() - 1]) == outcomes[j]);
            }
        }
    }
}

/// What a race makes of one outcome.
pub enum RaceStep<R> {
    /// The race is won with this answer. The calls that still run are
    /// abandoned.
    Won(R),
    /// This call failed and others still run.
    Waiting,
    /// This call failed and it was the last. The race fails with its error.
    Lost(Error),
}

/// What a race that waits for `waiting` calls makes of the next outcome.
pub open spec fn race_step<R>(waiting: nat, outcome: Result<R, Error>) -> RaceStep<R> {
    match outcome {
        Ok(r) => RaceStep::Won(r),
        Err(e) => if waiting <= 1 {
            RaceStep::Lost(e)
        } else {
            RaceStep::Waiting
        },
    }
}

/// Race-to-first over the outcomes in the order in which the calls
/// completed: the first answer, or the error of the call that completed
/// last where every call failed, or `NotFound` where there was no call.
pub open spec fn first_success<R>(completed: Seq<Result<R, Error>>) -> Result<R, Error>
    decreases completed.len(),
{
    if completed.len() == 0 {
        Err(Error::NotFound)
    } else {
        match race_step(completed.len(), completed[0]) {
            RaceStep::Won(r) => Ok(r),
            RaceStep::Lost(e) => Err(e),
            RaceStep::Waiting => first_success(completed.drop_first()),
        }
    }
}

/// A race that is under way.
pub struct Race {
    waiting: usize,
}

impl Race {
    /// The number of calls that the race still waits for.
    pub closed spec fn spec_waiting(&self) -> nat {
        self.waiting as nat
    }

    /// The number of calls that the race still waits for.
    pub fn waiting(&self) -> (n: usize)
        ensures
            n == self.spec_waiting(),
    {
        self.waiting
    }

    /// A race between `providers` calls. Fails with `NotFound` where there
    /// is none to call.
    pub fn start(providers: usize) -> (r: Result<Race, Error>)
        ensures
            match r {
                Ok(race) => providers > 0 && race.spec_waiting() == providers,
                Err(e) => providers == 0 && e == Error::NotFound,
            },
    {
        if providers == 0 {
            Err(Error::NotFound)
        } else {
            Ok(Race { waiting: providers })
        }
    }

    /// Takes the outcome of the call that completed next. Once the race is
    /// won or lost it waits for nothing more.
    pub fn observe<R>(&mut self, outcome: Result<R, Error>) -> (step: RaceStep<R>)
        ensures
            step == race_step(old(self).spec_waiting(), outcome),
            final(self).spec_waiting() == match step {
                RaceStep::Waiting => (old(self).spec_waiting() - 1) as nat,
                _ => 0,
            },
    {
        match outcome {
            Ok(r) => {
                self.waiting = 0;
                RaceStep::Won(r)
            },
            Err(e) => {
                if self.waiting <= 1 {
                    self.waiting = 0;
                    RaceStep::Lost(e)
                } else {
                    self.waiting = self.waiting - 1;
                    RaceStep::Waiting
                }
            },
        }
    }
}

/// Race-to-first over all outcomes at once, in the order in which the
/// calls completed.
pub fn hook_first<R>(completed: Vec<Result<R, Error>>) -> (r: Result<R, Error>)
    ensures
        r == first_success(completed@),
{
    let ghost all = completed@;
    let mut last: Error = Error::NotFound;
    for outcome in iter: completed
        invariant
            iter.seq() == all,
            forall|j: int| 0 <= j < iter.index() ==> (#[trigger] all[j]) is Err,
            Err::<R, Error>(last) == if iter.index() == 0 {
                Err::<R, Error>(Error::NotFound)
            } else {
                all[iter.index() - 1]
            },
    {
        let ghost k = iter.index() as int;
        match outcome {
            Ok(r) => {
                proof {
                    lemma_first_success(all);
                    assert(all[k] is Ok);
                    let i = choose|i: int|
                        0 <= i < all.len() && #[trigger] all[i] == first_success(all) && forall|
                            j: int,
                        | 0 <= j < i ==> (#[trigger] all[j]) is Err;
                    assert(i == k);
                }
                return Ok(r);
            },
            Err(e) => {
                last = e;
            },
        }
    }
    proof {
        lemma_first_success(all);
        if first_success(all).is_ok() {
            let i = choose|i: int| 0 <= i < all.len() && (#[trigger] all[i]) is Ok;
            assert(all[i] is Err);
        }
    }
    Err(last)
}

/// A race is won exactly when some call succeeds, whatever the order in
/// which the calls complete, and it is won with the answer of the first
/// call that succeeded.
pub proof fn lemma_first_success<R>(completed: Seq<Result<R, Error>>)
    ensures
        first_success(completed).is_ok() <==> exists|i: int|
            0 <= i < completed.len() && (#[trigger] completed[i]) is Ok,
        first_success(completed).is_ok() ==> exists|i: int|
            0 <= i < completed.len() && #[trigger] completed[i] == first_success(completed)
                && forall|j: int| 0 <= j < i ==> (#[trigger] completed[j]) is Err,
        first_success(completed).is_err() && completed.len() > 0 ==> first_success(completed)
            == completed.last(),
    decreases completed.len(),
{
    if completed.len() > 0 {
        let rest = completed.drop_first();
        match completed[0] {
            Ok(r) => {
                assert(completed[0] == first_success(completed));
            },
            Err(e) => {
                if completed.len() > 1 {
                    lemma_first_success(rest);
                    assert(first_success(completed) == first_success(rest));
                    assert(rest.last() == completed.last());
                    if exists|i: int| 0 <= i < completed.len() && (#[trigger] completed[i]) is Ok {
                        let i = choose|i: int|
                            0 <= i < completed.len() && (#[trigger] completed[i]) is Ok;
                        assert(rest[i - 1] is Ok);
                    }
                    if first_success(rest).is_ok() {
                        let i = choose|i: int|
                            0 <= i < rest.len() && #[trigger] rest[i] == first_success(rest)
                                && forall|j: int| 0 <= j < i ==> (#[trigger] rest[j]) is Err;
                        assert(completed[i + 1] == rest[i]);
                        assert forall|j: int| 0 <= j < i + 1 implies (#[trigger] completed[j]) is Err by {
                            if j > 0 {
                                assert(rest[j - 1] is Err);
                            }
                        }
                    }
                }
            },
        }
    }
}

/// Where all the calls that succeed give the same answer, the race gives
/// that answer in whatever order the calls complete; and where none
/// succeeds it fails in every order.
pub proof fn lemma_race_any_order<R>(a: Seq<Result<R, Error>>, b: Seq<Result<R, Error>>)
    requires
        forall|x: Result<R, Error>| a.contains(x) <==> b.contains(x),
        forall|i: int, j: int|
            0 <= i < a.len() && 0 <= j < a.len() && (#[trigger] a[i]) is Ok && (#[trigger] a[j]) is Ok
                ==> a[i] == a[j],
    ensures
        first_success(a).is_ok() <==> first_success(b).is_ok(),
        first_success(a).is_ok() ==> first_success(a) == first_success(b),
{
    lemma_first_success(a);
    lemma_first_success(b);
    if first_success(a).is_ok() {
        let i = choose|i: int| 0 <= i < a.len() && #[trigger] a[i] == first_success(a);
        assert(a.contains(a[i]));
        assert(b.contains(a[i]));
        let j = choose|j: int| 0 <= j < b.len() && b[j] == a[i];
        assert(b[j] is Ok);
        let k = choose|k: int| 0 <= k < b.len() && #[trigger] b[k] == first_success(b);
        assert(b.contains(b[k]));
        assert(a.contains(b[k]));
        let m = choose|m: int| 0 <= m < a.len() && a[m] == b[k];
        assert(a[m] is Ok);
        assert(a[i] == a[m]);
    }
    if first_success(b).is_ok() {
        let k = choose|k: int| 0 <= k < b.len() && #[trigger] b[k] == first_success(b);
        assert(b.contains(b[k]));
        assert(a.contains(b[k]));
        let m = choose|m: int| 0 <= m < a.len() && a[m] == b[k];
        assert(a[m] is Ok);
    }
}

/// What a fold does next.
pub enum FoldStep<P, R> {
    /// Call the provider at place `index` with `request`.
    Call { index: usize, request: P },
    /// The fold is done with this answer.
    Done(R),
    /// The fold failed with this error. No further provider is called.
    Failed(Error),
}

/// How a fold over `providers` extensions begins with the request `params`.
pub open spec fn fold_first<P, R>(providers: nat, params: P) -> FoldStep<P, R> {
    if providers == 0 {
        FoldStep::Failed(Error::NotFound)
    } else {
        FoldStep::Call { index: 0, request: params }
    }
}

/// How a fold over `providers` extensions goes on after the provider at
/// place `index` gave `outcome`, where `transform` makes the next request
/// of an answer.
pub open spec fn fold_next<P, R>(
    providers: nat,
    index: nat,
    outcome: Result<R, Error>,
    transform: spec_fn(R) -> P,
) -> FoldStep<P, R> {
    match outcome {
        Err(e) => FoldStep::Failed(e),
        Ok(r) => if index + 1 < providers {
            FoldStep::Call { index: (index + 1) as usize, request: transform(r) }
        } else {
            FoldStep::Done(r)
        },
    }
}

/// Sequential fold: the answer of the last of `answers`, where the first
/// is asked `params` and each next one is asked what `transform` makes of
/// the answer before it. The first failure is the outcome of the whole,
/// and so is `NotFound` where there is nobody to ask.
pub open spec fn fold_outcome<P, R>(
    answers: Seq<spec_fn(P) -> Result<R, Error>>,
    transform: spec_fn(R) -> P,
    params: P,
) -> Result<R, Error>
    decreases answers.len(),
{
    if answers.len() == 0 {
        Err(Error::NotFound)
    } else {
        match answers[0](params) {
            Err(e) => Err(e),
            Ok(r) => if answers.len() == 1 {
                Ok(r)
            } else {
                fold_outcome(answers.drop_first(), transform, transform(r))
            },
        }
    }
}

/// The outcome of a fold that goes on step by step from the provider at
/// place `index`, which is asked `request`, where each provider answers as
/// `answers` say.
pub open spec fn fold_run<P, R>(
    answers: Seq<spec_fn(P) -> Result<R, Error>>,
    transform: spec_fn(R) -> P,
    index: nat,
    request: P,
) -> Result<R, Error>
    decreases answers.len() - index,
{
    if index >= answers.len() {
        Err(Error::NotFound)
    } else {
        match fold_next(answers.len(), index, answers[index as int](request), transform) {
            FoldStep::Done(r) => Ok(r),
            FoldStep::Failed(e) => Err(e),
            FoldStep::Call { index: _, request: next } => fold_run(
                answers,
                transform,
                index + 1,
                next,
            ),
        }
    }
}

/// The steps of a fold, taken one after the other from the first, end in
/// the answer of the last provider to the chain of requests that went
/// through all of them in their order.
pub proof fn lemma_fold_steps<P, R>(
    answers: Seq<spec_fn(P) -> Result<R, Error>>,
    transform: spec_fn(R) -> P,
    params: P,
)
    ensures
        fold_first::<P, R>(answers.len(), params) is Failed <==> answers.len() == 0,
        fold_run(answers, transform, 0, params) == fold_outcome(answers, transform, params),
{
    lemma_fold_from(answers, transform, 0, params);
    assert(answers.skip(0) == answers);
}

proof fn lemma_fold_from<P, R>(
    answers: Seq<spec_fn(P) -> Result<R, Error>>,
    transform: spec_fn(R) -> P,
    index: nat,
    request: P,
)
    requires
        index <= answers.len(),
    ensures
        fold_run(answers, transform, index, request) == fold_outcome(
            answers.skip(index as int),
            transform,
            request,
        ),
    decreases answers.len() - index,
{
    let tail = answers.skip(index as int);
    if index < answers.len() {
        assert(tail[0] == answers[index as int]);
        match answers[index as int](request) {
            Err(e) => {},
            Ok(r) => {
                if index + 1 < answers.len() {
                    lemma_fold_from(answers, transform, index + 1, transform(r));
                    assert(tail.drop_first() == answers.skip(index as int + 1));
                } else {
                    assert(tail.len() == 1);
                }
            },
        }
    }
}

/// The first step of a fold over `providers` extensions with the request
/// `params`. Fails with `NotFound` where there is nobody to ask.
pub fn hook_fold_start<P, R>(providers: usize, params: P) -> (step: FoldStep<P, R>)
    ensures
        step == fold_first::<P, R>(providers as nat, params),
{
    if providers == 0 {
        FoldStep::Failed(Error::NotFound)
    } else {
        FoldStep::Call { index: 0, request: params }
    }
}

/// The next step of a fold over `providers` extensions, once the provider
/// at place `index` gave `outcome`. An answer of the last provider is the
/// answer of the fold; an answer of another is made into the request for
/// the next by `f`; a failure fails the fold.
pub fn hook_fold_next<P, R, F: Fn(R) -> P>(
    providers: usize,
    index: usize,
    outcome: Result<R, Error>,
    f: &F,
) -> (step: FoldStep<P, R>)
    requires
        index < providers,
        forall|r: R| f.requires((r,)),
    ensures
        match outcome {
            Err(e) => step == FoldStep::<P, R>::Failed(e),
            Ok(r) => if index + 1 < providers {
                &&& step matches FoldStep::Call { index: next, request }
                &&& next == index + 1
                &&& f.ensures((r,), request)
            } else {
                step == FoldStep::<P, R>::Done(r)
            },
        },
        forall|transform: spec_fn(R) -> P|
            (forall|r: R, p: P| #[trigger] f.ensures((r,), p) ==> p == transform(r)) ==> step
                == fold_next(providers as nat, index as nat, outcome, transform),
{
    match outcome {
        Err(e) => FoldStep::Failed(e),
        Ok(r) => {
            if index + 1 < providers {
                FoldStep::Call { index: index + 1, request: f(r) }
            } else {
                FoldStep::Done(r)
            }
        },
    }
}

/// Whether `outcomes` are what `call` gave for `hook` and `params`, one
/// outcome for each of `exts` and in their order.
pub open spec fn answered<P, R, C: Fn(&Extension, Hook, &P) -> Result<R, Error>>(
    call: C,
    exts: Seq<Extension>,
    hook: Hook,
    params: &P,
    outcomes: Seq<Result<R, Error>>,
) -> bool {
    &&& outcomes.len() == exts.len()
    &&& forall|i: int|
        0 <= i < exts.len() ==> call.ensures((&exts[i], hook, params), #[trigger] outcomes[i])
}

/// Whether `outcomes` are what `call` gave for the first of `exts`, up to
/// the first that succeeded: for all of them where none did.
pub open spec fn answered_until_success<P, R, C: Fn(&Extension, Hook, &P) -> Result<R, Error>>(
    call: C,
    exts: Seq<Extension>,
    hook: Hook,
    params: &P,
    outcomes: Seq<Result<R, Error>>,
) -> bool {
    &&& outcomes.len() <= exts.len()
    &&& forall|i: int|
        0 <= i < outcomes.len() ==> call.ensures(
            (&exts[i], hook, params),
            #[trigger] outcomes[i],
        )
    &&& forall|i: int| 0 <= i < outcomes.len() - 1 ==> (#[trigger] outcomes[i]) is Err
    &&& outcomes.len() == exts.len() || (outcomes.len() > 0 && outcomes.last() is Ok)
}

/// Whether `result` is what a fold over `exts` comes to, where `call` asks
/// an extension and `f` makes the next request of its answer: the first of
/// `exts` is asked `request`, a failure is the result of the whole, the
/// answer of the last is the result, and the answer of any other goes on
/// to the rest as `f` makes it.
pub open spec fn folded<
    P,
    R,
    C: Fn(&Extension, Hook, &P) -> Result<R, Error>,
    F: Fn(R) -> P,
>(call: C, f: F, exts: Seq<Extension>, hook: Hook, request: &P, result: Result<R, Error>) -> bool
    decreases exts.len(),
{
    if exts.len() == 0 {
        result == Err::<R, Error>(Error::NotFound)
    } else {
        exists|outcome: Result<R, Error>|
            #![trigger call.ensures((&exts[0], hook, request), outcome)]
            call.ensures((&exts[0], hook, request), outcome) && match outcome {
                Err(e) => result == Err::<R, Error>(e),
                Ok(r) => if exts.len() == 1 {
                    result == Ok::<R, Error>(r)
                } else {
                    exists|next: P|
                        #![trigger f.ensures((r,), next)]
                        f.ensures((r,), next) && folded(
                            call,
                            f,
                            exts.drop_first(),
                            hook,
                            &next,
                            result,
                        )
                },
            }
    }
}

impl<L: ModuleLoader> Host<L> {
    /// Fan-out: calls every extension that is registered for `hook` with
    /// `params`, in the order of the ids, and returns the answers of those
    /// that succeeded, in that order. This never fails: an extension that
    /// fails adds nothing, and no extension at all gives no answers.
    pub fn hook_parallel<P, R, C: Fn(&Extension, Hook, &P) -> Result<R, Error>>(
        &self,
        hook: Hook,
        params: &P,
        call: C,
    ) -> (r: Result<Vec<R>, Error>)
        requires
            self.wf(),
            forall|ext: &Extension| call.requires((ext, hook, params)),
        ensures
            r matches Ok(out) && exists|outcomes: Seq<Result<R, Error>>|
                #![trigger successes(outcomes)]
                answered(call, self.records(hook), hook, params, outcomes) && out@ == successes(
                    outcomes,
                ),
    {
        let exts = self.lookup(hook);
        let mut outcomes: Vec<Result<R, Error>> = Vec::new();
        let mut i: usize = 0;
        while i < exts.len()
            invariant
                i <= exts.len(),
                exts@.map_values(|e: &Extension| *e) == self.records(hook),
                forall|ext: &Extension| call.requires((ext, hook, params)),
                outcomes@.len() == i,
                forall|j: int|
                    0 <= j < i ==> call.ensures(
                        (&self.records(hook)[j], hook, params),
                        #[trigger] outcomes@[j],
                    ),
            decreases exts.len() - i,
        {
            assert(exts@.map_values(|e: &Extension| *e)[i as int] == *exts@[i as int]);
            let outcome = call(exts[i], hook, params);
            outcomes.push(outcome);
            i += 1;
        }
        assert(answered(call, self.records(hook), hook, params, outcomes@));
        Ok(hook_parallel(outcomes))
    }

    /// Race-to-first, one call at a time: calls the extensions that are
    /// registered for `hook` with `params`, in the order of the ids, until
    /// one succeeds, and returns its answer. The extensions after it are
    /// not called. Fails with the last error where every extension failed,
    /// and with `NotFound` where none is registered.
    pub fn hook_first<P, R, C: Fn(&Extension, Hook, &P) -> Result<R, Error>>(
        &self,
        hook: Hook,
        params: &P,
        call: C,
    ) -> (r: Result<R, Error>)
        requires
            self.wf(),
            forall|ext: &Extension| call.requires((ext, hook, params)),
        ensures
            exists|outcomes: Seq<Result<R, Error>>|
                #![trigger first_success(outcomes)]
                answered_until_success(call, self.records(hook), hook, params, outcomes) && r
                    == first_success(outcomes),
    {
        let exts = self.lookup(hook);
        let ghost mut outcomes: Seq<Result<R, Error>> = Seq::empty();
        let mut last: Error = Error::NotFound;
        let mut i: usize = 0;
        while i < exts.len()
            invariant
                i <= exts.len(),
                exts@.map_values(|e: &Extension| *e) == self.records(hook),
                forall|ext: &Extension| call.requires((ext, hook, params)),
                outcomes.len() == i,
                forall|j: int|
                    0 <= j < i ==> call.ensures(
                        (&self.records(hook)[j], hook, params),
                        #[trigger] outcomes[j],
                    ),
                forall|j: int| 0 <= j < i ==> (#[trigger] outcomes[j]) is Err,
                Err::<R, Error>(last) == if i == 0 {
                    Err::<R, Error>(Error::NotFound)
                } else {
                    outcomes[i - 1]
                },
            decreases exts.len() - i,
        {
            assert(exts@.map_values(|e: &Extension| *e)[i as int] == *exts@[i as int]);
            let outcome = call(exts[i], hook, params);
            proof {
                outcomes = outcomes.push(outcome);
            }
            match outcome {
                Ok(r) => {
                    proof {
                        lemma_first_success(outcomes);
                        assert(outcomes[i as int] is Ok);
                        assert(outcomes.last() == outcome);
                        let k = choose|k: int|
                            0 <= k < outcomes.len() && #[trigger] outcomes[k] == first_success(
                                outcomes,
                            ) && forall|j: int| 0 <= j < k ==> (#[trigger] outcomes[j]) is Err;
                        assert(k == i);
                        assert(answered_until_success(
                            call,
                            self.records(hook),
                            hook,
                            params,
                            outcomes,
                        ));
                    }
                    return Ok(r);
                },
                Err(e) => {
                    last = e;
                },
            }
            i += 1;
        }
        proof {
            lemma_first_success(outcomes);
            if first_success(outcomes).is_ok() {
                let k = choose|k: int| 0 <= k < outcomes.len() && (#[trigger] outcomes[k]) is Ok;
                assert(outcomes[k] is Err);
            }
            assert(answered_until_success(call, self.records(hook), hook, params, outcomes));
        }
        Err(last)
    }

    /// Sequential fold: calls the extensions that are registered for
    /// `hook` one after the other, in the order of the ids. The first is
    /// asked `params`; each next one is asked what `f` makes of the answer
    /// before it; the answer of the last is returned. The first failure
    /// ends the fold and is its result. Fails with `NotFound` where no
    /// extension is registered.
    pub fn hook_fold<
        P,
        R,
        C: Fn(&Extension, Hook, &P) -> Result<R, Error>,
        F: Fn(R) -> P,
    >(&self, hook: Hook, params: &P, call: C, f: F) -> (r: Result<R, Error>)
        requires
            self.wf(),
            forall|ext: &Extension, request: &P| call.requires((ext, hook, request)),
            forall|answer: R| f.requires((answer,)),
        ensures
            folded(call, f, self.records(hook), hook, params, r),
    {
        let exts = self.lookup(hook);
        let ghost all = self.records(hook);
        if exts.len() == 0 {
            return Err(Error::NotFound);
        }
        assert(exts@.map_values(|e: &Extension| *e)[0] == *exts@[0]);
        let mut answer = match call(exts[0], hook, params) {
            Ok(answer) => answer,
            Err(e) => {
                return Err(e);
            },
        };
        let mut i: usize = 1;
        proof {
            assert(all.skip(1) == all.drop_first());
        }
        while i < exts.len()
            invariant
                1 <= i <= exts.len(),
                all == self.records(hook),
                exts@.map_values(|e: &Extension| *e) == all,
                forall|ext: &Extension, request: &P| call.requires((ext, hook, request)),
                forall|answer: R| f.requires((answer,)),
                forall|result: Result<R, Error>|
                    #![trigger folded(call, f, all, hook, params, result)]
                    (if i == all.len() {
                        result == Ok::<R, Error>(answer)
                    } else {
                        exists|next: P|
                            #![trigger f.ensures((answer,), next)]
                            f.ensures((answer,), next) && folded(
                                call,
                                f,
                                all.skip(i as int),
                                hook,
                                &next,
                                result,
                            )
                    }) ==> folded(call, f, all, hook, params, result),
            decreases exts.len() - i,
        {
            let ghost asked = answer;
            let request = f(answer);
            let ghost rest = all.skip(i as int);
            assert(rest[0] == all[i as int]);
            assert(exts@.map_values(|e: &Extension| *e)[i as int] == *exts@[i as int]);
            let outcome = call(exts[i], hook, &request);
            proof {
                assert(rest.drop_first() == all.skip(i as int + 1));
            }
            match outcome {
                Ok(next_answer) => {
                    proof {
                        assert forall|result: Result<R, Error>|
                            #![trigger folded(call, f, all, hook, params, result)]
                            (if i + 1 == all.len() {
                                result == Ok::<R, Error>(next_answer)
                            } else {
                                exists|next: P|
                                    #![trigger f.ensures((next_answer,), next)]
                                    f.ensures((next_answer,), next) && folded(
                                        call,
                                        f,
                                        all.skip(i as int + 1),
                                        hook,
                                        &next,
                                        result,
                                    )
                            }) implies folded(call, f, all, hook, params, result) by {
                            assert(call.ensures((&rest[0], hook, &request), outcome));
                            assert(folded(call, f, rest, hook, &request, result));
                            assert(f.ensures((asked,), request));
                        }
                    }
                    answer = next_answer;
                },
                Err(e) => {
                    proof {
                        let result = Err::<R, Error>(e);
                        assert(call.ensures((&rest[0], hook, &request), outcome));
                        assert(folded(call, f, rest, hook, &request, result));
                        assert(f.ensures((asked,), request));
                    }
                    return Err(e);
                },
            }
            i += 1;
        }
        Ok(answer)
    }
}

} // verus!
