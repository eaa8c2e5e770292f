//! Whole runs: what is asked, in order, for a list of replies.

use crate::error::Fault;
use crate::exchange::{Progress, ReplyView, RequestView};
use vstd::prelude::*;

verus! {

/// A step function: what a run that waits does with a reply.
pub type Step<S, T> = spec_fn(S, ReplyView) -> Result<
    Progress<S, RequestView, T>,
    Fault<Seq<char>>,
>;

/// The requests of a run that is given `replies` one by one.
pub open spec fn requests<S, T>(
    step: Step<S, T>,
    at: Progress<S, RequestView, T>,
    replies: Seq<ReplyView>,
) -> Seq<RequestView>
    decreases replies.len(),
{
    match at {
        Progress::Done(_) => Seq::empty(),
        Progress::Ask(run, request) => if replies.len() == 0 {
            seq![request]
        } else {
            match step(run, replies[0]) {
                Ok(next) => seq![request] + requests(step, next, replies.drop_first()),
                Err(_) => seq![request],
            }
        },
    }
}

/// How a run ends that is given `replies` one by one; none if it still waits.
pub open spec fn ending<S, T>(
    step: Step<S, T>,
    at: Progress<S, RequestView, T>,
    replies: Seq<ReplyView>,
) -> Option<Result<T, Fault<Seq<char>>>>
    decreases replies.len(),
{
    match at {
        Progress::Done(result) => Some(Ok(result)),
        Progress::Ask(run, _) => if replies.len() == 0 {
            None
        } else {
            match step(run, replies[0]) {
                Ok(next) => ending(step, next, replies.drop_first()),
                Err(fault) => Some(Err(fault)),
            }
        },
    }
}

/// What holds of the first state and is kept by every step holds of every request of a run.
pub proof fn kept_by_steps<S, T>(
    step: Step<S, T>,
    sound: spec_fn(S, RequestView) -> bool,
    good: spec_fn(RequestView) -> bool,
    at: Progress<S, RequestView, T>,
    replies: Seq<ReplyView>,
)
    requires
        at matches Progress::Ask(run, request) ==> sound(run, request),
        forall|run: S, request: RequestView| #[trigger] sound(run, request) ==> good(request),
        forall|run: S, request: RequestView, reply: ReplyView|
            #![trigger sound(run, request), step(run, reply)]
            sound(run, request) ==> (step(run, reply) matches Ok(Progress::Ask(next, asked))
                ==> sound(next, asked)),
    ensures
        forall|i: int|
            0 <= i < requests(step, at, replies).len() ==> good(
                #[trigger] requests(step, at, replies)[i],
            ),
    decreases replies.len(),
{
    let all = requests(step, at, replies);
    if let Progress::Ask(run, request) = at {
        assert(sound(run, request));
        if replies.len() > 0 {
            let after = step(run, replies[0]);
            if let Ok(next) = after {
                kept_by_steps(step, sound, good, next, replies.drop_first());
                let rest = requests(step, next, replies.drop_first());
                assert forall|i: int| 0 <= i < all.len() implies good(#[trigger] all[i]) by {
                    if i > 0 {
                        assert(all[i] == rest[i - 1]);
                    }
                }
            }
        }
    }
}

/// A run whose first step fails asks nothing more.
pub proof fn fails_at_once<S, T>(
    step: Step<S, T>,
    run: S,
    request: RequestView,
    replies: Seq<ReplyView>,
    fault: Fault<Seq<char>>,
)
    requires
        replies.len() > 0,
        step(run, replies[0]) == Err::<Progress<S, RequestView, T>, Fault<Seq<char>>>(fault),
    ensures
        requests(step, Progress::Ask(run, request), replies) == seq![request],
        ending(step, Progress::Ask(run, request), replies) == Some(
            Err::<T, Fault<Seq<char>>>(fault),
        ),
{
}

/// A run whose second step fails asks nothing more.
pub proof fn fails_next<S, T>(
    step: Step<S, T>,
    run: S,
    request: RequestView,
    next: S,
    asked: RequestView,
    replies: Seq<ReplyView>,
    fault: Fault<Seq<char>>,
)
    requires
        replies.len() > 1,
        step(run, replies[0]) == Ok::<Progress<S, RequestView, T>, Fault<Seq<char>>>(
            Progress::Ask(next, asked),
        ),
        step(next, replies[1]) == Err::<Progress<S, RequestView, T>, Fault<Seq<char>>>(fault),
    ensures
        requests(step, Progress::Ask(run, request), replies) == seq![request, asked],
        ending(step, Progress::Ask(run, request), replies) == Some(
            Err::<T, Fault<Seq<char>>>(fault),
        ),
{
    let rest = replies.drop_first();
    assert(rest[0] == replies[1]);
    fails_at_once(step, next, asked, rest, fault);
    assert(seq![request] + seq![asked] =~= seq![request, asked]);
}

/// What a run owes it has done by the time that it comes to a good end: if a run that owes something
/// goes on owing it until it asks for it, or is answered something that excuses it, and never ends
/// while it owes it, then in a run that ends well it was asked for or excused.
pub proof fn settled_by_the_end<S, T>(
    step: Step<S, T>,
    owes: spec_fn(S, RequestView) -> bool,
    met: spec_fn(RequestView) -> bool,
    excused: spec_fn(RequestView, ReplyView) -> bool,
    at: Progress<S, RequestView, T>,
    replies: Seq<ReplyView>,
)
    requires
        at matches Progress::Ask(run, request) && (owes(run, request) || met(request)),
        forall|run: S, request: RequestView, reply: ReplyView|
            #![trigger owes(run, request), step(run, reply)]
            owes(run, request) && !excused(request, reply) ==> match step(run, reply) {
                Err(_) => true,
                Ok(Progress::Done(_)) => false,
                Ok(Progress::Ask(next, asked)) => owes(next, asked) || met(asked),
            },
        ending(step, at, replies) matches Some(Ok(_)),
    ensures
        exists|i: int|
            0 <= i < requests(step, at, replies).len() && (met(
                #[trigger] requests(step, at, replies)[i],
            ) || (i < replies.len() && excused(requests(step, at, replies)[i], replies[i]))),
    decreases replies.len(),
{
    let all = requests(step, at, replies);
    let (run, request) = (at->Ask_0, at->Ask_1);
    assert(all[0] == request);
    if !met(request) && !excused(request, replies[0]) {
        let next = step(run, replies[0])->Ok_0;
        let rest = requests(step, next, replies.drop_first());
        settled_by_the_end(step, owes, met, excused, next, replies.drop_first());
        let i = choose|i: int|
            0 <= i < rest.len() && (met(#[trigger] rest[i]) || (i < replies.drop_first().len()
                && excused(rest[i], replies.drop_first()[i])));
        assert(all[i + 1] == rest[i]);
    }
}

/// What is kept by every step holds of what a run comes to.
pub proof fn kept_to_the_end<S, T>(
    step: Step<S, T>,
    sound: spec_fn(S) -> bool,
    good: spec_fn(T) -> bool,
    at: Progress<S, RequestView, T>,
    replies: Seq<ReplyView>,
)
    requires
        match at {
            Progress::Ask(run, _) => sound(run),
            Progress::Done(result) => good(result),
        },
        forall|run: S, reply: ReplyView|
            sound(run) ==> match #[trigger] step(run, reply) {
                Err(_) => true,
                Ok(Progress::Ask(next, _)) => sound(next),
                Ok(Progress::Done(result)) => good(result),
            },
    ensures
        ending(step, at, replies) matches Some(Ok(result)) ==> good(result),
    decreases replies.len(),
{
    if let Progress::Ask(run, _) = at {
        if replies.len() > 0 {
            if let Ok(next) = step(run, replies[0]) {
                kept_to_the_end(step, sound, good, next, replies.drop_first());
            }
        }
    }
}

proof fn asked_after_a_step<S, T>(
    step: Step<S, T>,
    sound: spec_fn(S, RequestView, ReplyView, RequestView) -> bool,
    reason: spec_fn(RequestView, ReplyView, RequestView, ReplyView, RequestView) -> bool,
    run: S,
    before: RequestView,
    answer: ReplyView,
    request: RequestView,
    replies: Seq<ReplyView>,
)
    requires
        sound(run, before, answer, request),
        forall|
            run: S,
            before: RequestView,
            answer: ReplyView,
            request: RequestView,
            reply: ReplyView,
        |
            #![trigger sound(run, before, answer, request), step(run, reply)]
            sound(run, before, answer, request) ==> (step(run, reply) matches Ok(
                Progress::Ask(next, asked),
            ) ==> sound(next, request, reply, asked) && reason(
                before,
                answer,
                request,
                reply,
                asked,
            )),
    ensures
        ({
            let all = requests(step, Progress::Ask(run, request), replies);
            &&& all.len() > 1 ==> reason(before, answer, all[0], replies[0], all[1])
            &&& forall|i: int|
                1 < i < all.len() ==> reason(
                    all[i - 2],
                    replies[i - 2],
                    all[i - 1],
                    replies[i - 1],
                    #[trigger] all[i],
                )
        }),
    decreases replies.len(),
{
    let all = requests(step, Progress::Ask(run, request), replies);
    no_more_requests_than_replies(step, Progress::Ask(run, request), replies);
    assert(all[0] == request);
    if replies.len() > 0 {
        match step(run, replies[0]) {
            Ok(Progress::Ask(next, asked)) => {
                let left = replies.drop_first();
                let rest = requests(step, Progress::Ask(next, asked), left);
                asked_after_a_step(step, sound, reason, next, request, replies[0], asked, left);
                assert(rest[0] == asked);
                assert(all[1] == asked);
                assert forall|i: int| 1 < i < all.len() implies reason(
                    all[i - 2],
                    replies[i - 2],
                    all[i - 1],
                    replies[i - 1],
                    #[trigger] all[i],
                ) by {
                    assert(all[i] == rest[i - 1]);
                    assert(all[i - 1] == rest[i - 2]);
                    assert(replies[i - 1] == left[i - 2]);
                    if i > 2 {
                        assert(all[i - 2] == rest[i - 3]);
                        assert(replies[i - 2] == left[i - 3]);
                    }
                }
            },
            _ => {
                if all.len() > 1 {
                    second_request(step, Progress::Ask(run, request), replies);
                }
            },
        }
    }
}

/// What holds of every two steps in a row from a sound state holds of every request, the two before
/// it and the replies to those.
pub proof fn asked_for_two_reasons<S, T>(
    step: Step<S, T>,
    first: spec_fn(S, RequestView) -> bool,
    sound: spec_fn(S, RequestView, ReplyView, RequestView) -> bool,
    reason: spec_fn(RequestView, ReplyView, RequestView, ReplyView, RequestView) -> bool,
    at: Progress<S, RequestView, T>,
    replies: Seq<ReplyView>,
)
    requires
        at matches Progress::Ask(run, request) ==> first(run, request),
        forall|run: S, request: RequestView, reply: ReplyView|
            #![trigger first(run, request), step(run, reply)]
            first(run, request) ==> (step(run, reply) matches Ok(Progress::Ask(next, asked))
                ==> sound(next, request, reply, asked)),
        forall|
            run: S,
            before: RequestView,
            answer: ReplyView,
            request: RequestView,
            reply: ReplyView,
        |
            #![trigger sound(run, before, answer, request), step(run, reply)]
            sound(run, before, answer, request) ==> (step(run, reply) matches Ok(
                Progress::Ask(next, asked),
            ) ==> sound(next, request, reply, asked) && reason(
                before,
                answer,
                request,
                reply,
                asked,
            )),
    ensures
        requests(step, at, replies).len() <= replies.len() + 1,
        forall|i: int|
            1 < i < requests(step, at, replies).len() ==> reason(
                requests(step, at, replies)[i - 2],
                replies[i - 2],
                requests(step, at, replies)[i - 1],
                replies[i - 1],
                #[trigger] requests(step, at, replies)[i],
            ),
{
    let all = requests(step, at, replies);
    no_more_requests_than_replies(step, at, replies);
    if all.len() > 1 {
        second_request(step, at, replies);
        assert(first(at->Ask_0, at->Ask_1));
    }
    if let Progress::Ask(run, request) = at {
        if replies.len() > 0 {
            if let Ok(Progress::Ask(next, asked)) = step(run, replies[0]) {
                let left = replies.drop_first();
                let rest = requests(step, Progress::Ask(next, asked), left);
                asked_after_a_step(step, sound, reason, next, request, replies[0], asked, left);
                assert(rest[0] == asked);
                assert forall|i: int| 1 < i < all.len() implies reason(
                    all[i - 2],
                    replies[i - 2],
                    all[i - 1],
                    replies[i - 1],
                    #[trigger] all[i],
                ) by {
                    assert(all[i] == rest[i - 1]);
                    assert(all[i - 1] == rest[i - 2]);
                    assert(replies[i - 1] == left[i - 2]);
                    if i > 2 {
                        assert(all[i - 2] == rest[i - 3]);
                        assert(replies[i - 2] == left[i - 3]);
                    }
                }
            }
        }
    }
}

/// The second request of a run is what its first step asks.
pub proof fn second_request<S, T>(
    step: Step<S, T>,
    at: Progress<S, RequestView, T>,
    replies: Seq<ReplyView>,
)
    requires
        requests(step, at, replies).len() > 1,
    ensures
        at is Ask,
        replies.len() > 0,
        step(at->Ask_0, replies[0]) matches Ok(Progress::Ask(_, asked)) && asked == requests(
            step,
            at,
            replies,
        )[1],
{
    let all = requests(step, at, replies);
    if replies.len() == 0 {
        assert(all =~= seq![at->Ask_1]);
    } else if let Ok(next) = step(at->Ask_0, replies[0]) {
        let rest = requests(step, next, replies.drop_first());
        if next is Done {
            assert(all =~= seq![at->Ask_1]);
        } else {
            assert(rest[0] == next->Ask_1);
            assert(all[1] == rest[0]);
        }
    }
}

/// A run asks at most once more than it is answered.
pub proof fn no_more_requests_than_replies<S, T>(
    step: Step<S, T>,
    at: Progress<S, RequestView, T>,
    replies: Seq<ReplyView>,
)
    ensures
        requests(step, at, replies).len() <= replies.len() + 1,
    decreases replies.len(),
{
    if let Progress::Ask(run, _) = at {
        if replies.len() > 0 {
            if let Ok(next) = step(run, replies[0]) {
                no_more_requests_than_replies(step, next, replies.drop_first());
            }
        }
    }
}

/// What every step keeps, as long as the replies are what they are taken to be, holds of every request
/// of a run and of what it comes to.
pub proof fn kept_when_told<S, T>(
    step: Step<S, T>,
    told: spec_fn(RequestView, ReplyView) -> bool,
    sound: spec_fn(S, RequestView) -> bool,
    fine: spec_fn(RequestView) -> bool,
    good: spec_fn(T) -> bool,
    at: Progress<S, RequestView, T>,
    replies: Seq<ReplyView>,
)
    requires
        match at {
            Progress::Ask(run, request) => sound(run, request),
            Progress::Done(result) => good(result),
        },
        forall|run: S, request: RequestView| #[trigger] sound(run, request) ==> fine(request),
        forall|run: S, request: RequestView, reply: ReplyView|
            #![trigger sound(run, request), step(run, reply)]
            sound(run, request) && told(request, reply) ==> match step(run, reply) {
                Err(_) => true,
                Ok(Progress::Ask(next, asked)) => sound(next, asked),
                Ok(Progress::Done(result)) => good(result),
            },
        forall|i: int|
            0 <= i < requests(step, at, replies).len() && i < replies.len() ==> told(
                #[trigger] requests(step, at, replies)[i],
                replies[i],
            ),
    ensures
        forall|i: int|
            0 <= i < requests(step, at, replies).len() ==> fine(
                #[trigger] requests(step, at, replies)[i],
            ),
        ending(step, at, replies) matches Some(Ok(result)) ==> good(result),
    decreases replies.len(),
{
    let all = requests(step, at, replies);
    if let Progress::Ask(run, request) = at {
        assert(sound(run, request));
        assert(all[0] == request);
        if replies.len() > 0 {
            if let Ok(next) = step(run, replies[0]) {
                let (left, rest) = (
                    replies.drop_first(),
                    requests(step, next, replies.drop_first()),
                );
                assert forall|i: int| 0 <= i < rest.len() && i < left.len() implies told(
                    #[trigger] rest[i],
                    left[i],
                ) by {
                    assert(all[i + 1] == rest[i]);
                    assert(told(all[i + 1], replies[i + 1]));
                }
                kept_when_told(step, told, sound, fine, good, next, left);
                assert forall|i: int| 0 <= i < all.len() implies fine(#[trigger] all[i]) by {
                    if i > 0 {
                        assert(all[i] == rest[i - 1]);
                    }
                }
            }
        }
    }
}

/// What a run owes, as long as the replies are what they are taken to be, it has done by the time
/// that it comes to a good end.
pub proof fn settled_when_told<S, T>(
    step: Step<S, T>,
    told: spec_fn(RequestView, ReplyView) -> bool,
    owes: spec_fn(S, RequestView) -> bool,
    met: spec_fn(RequestView) -> bool,
    excused: spec_fn(RequestView, ReplyView) -> bool,
    at: Progress<S, RequestView, T>,
    replies: Seq<ReplyView>,
)
    requires
        at matches Progress::Ask(run, request) && (owes(run, request) || met(request)),
        forall|run: S, request: RequestView, reply: ReplyView|
            #![trigger owes(run, request), step(run, reply)]
            owes(run, request) && told(request, reply) && !excused(request, reply) ==> match step(
                run,
                reply,
            ) {
                Err(_) => true,
                Ok(Progress::Done(_)) => false,
                Ok(Progress::Ask(next, asked)) => owes(next, asked) || met(asked),
            },
        ending(step, at, replies) matches Some(Ok(_)),
        forall|i: int|
            0 <= i < requests(step, at, replies).len() && i < replies.len() ==> told(
                #[trigger] requests(step, at, replies)[i],
                replies[i],
            ),
    ensures
        exists|i: int|
            0 <= i < requests(step, at, replies).len() && (met(
                #[trigger] requests(step, at, replies)[i],
            ) || (i < replies.len() && excused(requests(step, at, replies)[i], replies[i]))),
    decreases replies.len(),
{
    let all = requests(step, at, replies);
    let (run, request) = (at->Ask_0, at->Ask_1);
    assert(all[0] == request);
    if !met(request) && !excused(request, replies[0]) {
        assert(told(all[0], replies[0]));
        let next = step(run, replies[0])->Ok_0;
        let (left, rest) = (replies.drop_first(), requests(step, next, replies.drop_first()));
        assert forall|i: int| 0 <= i < rest.len() && i < left.len() implies told(
            #[trigger] rest[i],
            left[i],
        ) by {
            assert(all[i + 1] == rest[i]);
            assert(told(all[i + 1], replies[i + 1]));
        }
        settled_when_told(step, told, owes, met, excused, next, left);
        let i = choose|i: int|
            0 <= i < rest.len() && (met(#[trigger] rest[i]) || (i < left.len() && excused(
                rest[i],
                left[i],
            )));
        assert(all[i + 1] == rest[i]);
    }
}

/// The replies are what they are taken to be as long as a run only looks.
pub open spec fn told_while(
    told: spec_fn(RequestView, ReplyView) -> bool,
    looks: spec_fn(RequestView) -> bool,
    asked: Seq<RequestView>,
    replies: Seq<ReplyView>,
) -> bool {
    forall|i: int|
        #![trigger asked[i]]
        0 <= i < asked.len() && i < replies.len() && (forall|j: int|
            0 <= j <= i ==> looks(#[trigger] asked[j])) ==> told(asked[i], replies[i])
}

/// A run goes on, after `count` replies, from another point.
pub open spec fn goes_on_at<S, T>(
    step: Step<S, T>,
    at: Progress<S, RequestView, T>,
    replies: Seq<ReplyView>,
    count: int,
    next: Progress<S, RequestView, T>,
) -> bool {
    &&& 0 <= count <= replies.len()
    &&& count <= requests(step, at, replies).len()
    &&& requests(step, at, replies).skip(count) == requests(step, next, replies.skip(count))
    &&& ending(step, at, replies) == ending(step, next, replies.skip(count))
}

/// A run that only looks at first, and goes on looking until it reaches a point of some kind, reaches
/// such a point or never comes to a good end; until then it has only looked.
pub proof fn looks_until<S, T>(
    step: Step<S, T>,
    told: spec_fn(RequestView, ReplyView) -> bool,
    looks: spec_fn(RequestView) -> bool,
    before: spec_fn(S, RequestView) -> bool,
    mark: spec_fn(Progress<S, RequestView, T>) -> bool,
    at: Progress<S, RequestView, T>,
    replies: Seq<ReplyView>,
) -> (reached: Option<(int, Progress<S, RequestView, T>)>)
    requires
        mark(at) || (at matches Progress::Ask(run, request) && before(run, request)),
        forall|run: S, request: RequestView| #[trigger] before(run, request) ==> looks(request),
        forall|run: S, request: RequestView, reply: ReplyView|
            #![trigger before(run, request), step(run, reply)]
            before(run, request) && told(request, reply) ==> match step(run, reply) {
                Err(_) => true,
                Ok(next) => mark(next) || (next matches Progress::Ask(run, request) && before(
                    run,
                    request,
                )),
            },
        told_while(told, looks, requests(step, at, replies), replies),
    ensures
        match reached {
            None => {
                &&& ending(step, at, replies) !is Some || ending(step, at, replies)->Some_0 is Err
                &&& forall|i: int|
                    0 <= i < requests(step, at, replies).len() ==> looks(
                        #[trigger] requests(step, at, replies)[i],
                    )
            },
            Some((count, next)) => {
                &&& mark(next)
                &&& goes_on_at(step, at, replies, count, next)
                &&& forall|i: int|
                    0 <= i < count ==> looks(#[trigger] requests(step, at, replies)[i])
            },
        },
    decreases replies.len(),
{
    let all = requests(step, at, replies);
    if mark(at) {
        assert(all.skip(0) =~= all);
        assert(replies.skip(0) =~= replies);
        Some((0, at))
    } else {
        let (run, request) = (at->Ask_0, at->Ask_1);
        assert(all[0] == request);
        assert(looks(all[0]));
        if replies.len() == 0 {
            None
        } else {
            assert(told(all[0], replies[0]));
            match step(run, replies[0]) {
                Err(_) => None,
                Ok(next) => {
                    let (left, rest) = (
                        replies.drop_first(),
                        requests(step, next, replies.drop_first()),
                    );
                    assert forall|i: int|
                        #![trigger rest[i]]
                        0 <= i < rest.len() && i < left.len() && (forall|j: int|
                            0 <= j <= i ==> looks(#[trigger] rest[j])) implies told(
                        rest[i],
                        left[i],
                    ) by {
                        assert(all[i + 1] == rest[i]);
                        assert forall|j: int| 0 <= j <= i + 1 implies looks(#[trigger] all[j]) by {
                            if j > 0 {
                                assert(all[j] == rest[j - 1]);
                            }
                        }
                        assert(told(all[i + 1], replies[i + 1]));
                    }
                    let reached = looks_until(step, told, looks, before, mark, next, left);
                    match reached {
                        None => {
                            assert forall|i: int| 0 <= i < all.len() implies looks(
                                #[trigger] all[i],
                            ) by {
                                if i > 0 {
                                    assert(all[i] == rest[i - 1]);
                                }
                            }
                            None
                        },
                        Some((count, point)) => {
                            assert(all.skip(count + 1) =~= rest.skip(count));
                            assert(replies.skip(count + 1) =~= left.skip(count));
                            assert forall|i: int| 0 <= i < count + 1 implies looks(
                                #[trigger] all[i],
                            ) by {
                                if i > 0 {
                                    assert(all[i] == rest[i - 1]);
                                }
                            }
                            Some((count + 1, point))
                        },
                    }
                },
            }
        }
    }
}

/// A run that comes to a good end got no reply that taints it: if a bad reply taints a run, and a
/// tainted run stays so and never comes to a good end, there was none.
pub proof fn never_tainted<S, T>(
    step: Step<S, T>,
    sound: spec_fn(S, RequestView) -> bool,
    tainted: spec_fn(S) -> bool,
    bad: spec_fn(RequestView, ReplyView) -> bool,
    at: Progress<S, RequestView, T>,
    replies: Seq<ReplyView>,
)
    requires
        at matches Progress::Ask(run, request) ==> sound(run, request),
        forall|run: S, request: RequestView, reply: ReplyView|
            #![trigger sound(run, request), step(run, reply)]
            sound(run, request) ==> match step(run, reply) {
                Err(_) => true,
                Ok(Progress::Ask(next, asked)) => sound(next, asked) && (tainted(run) || bad(
                    request,
                    reply,
                ) ==> tainted(next)),
                Ok(Progress::Done(_)) => !tainted(run) && !bad(request, reply),
            },
        ending(step, at, replies) matches Some(Ok(_)),
    ensures
        at matches Progress::Ask(run, _) ==> !tainted(run),
        requests(step, at, replies).len() <= replies.len(),
        forall|i: int|
            0 <= i < requests(step, at, replies).len() ==> !bad(
                #[trigger] requests(step, at, replies)[i],
                replies[i],
            ),
    decreases replies.len(),
{
    if let Progress::Ask(run, request) = at {
        let all = requests(step, at, replies);
        let next = step(run, replies[0])->Ok_0;
        let (left, rest) = (replies.drop_first(), requests(step, next, replies.drop_first()));
        never_tainted(step, sound, tainted, bad, next, left);
        assert(all[0] == request);
        assert forall|i: int| 0 <= i < all.len() implies !bad(#[trigger] all[i], replies[i]) by {
            if i > 0 {
                assert(all[i] == rest[i - 1]);
                assert(replies[i] == left[i - 1]);
            }
        }
    }
}

/// What the exchanges of a run come to, one by one.
pub open spec fn total(
    count: spec_fn(RequestView, ReplyView) -> nat,
    asked: Seq<RequestView>,
    replies: Seq<ReplyView>,
) -> nat
    decreases asked.len(),
{
    if asked.len() == 0 || replies.len() == 0 {
        0
    } else {
        count(asked[0], replies[0]) + total(count, asked.drop_first(), replies.drop_first())
    }
}

/// What every step counts up, a run has counted up by its end.
pub proof fn counted_by_the_end<S, T>(
    step: Step<S, T>,
    sound: spec_fn(S, RequestView) -> bool,
    so_far: spec_fn(S) -> nat,
    count: spec_fn(RequestView, ReplyView) -> nat,
    result: spec_fn(T) -> nat,
    at: Progress<S, RequestView, T>,
    replies: Seq<ReplyView>,
)
    requires
        at matches Progress::Ask(run, request) && sound(run, request),
        forall|run: S, request: RequestView, reply: ReplyView|
            #![trigger sound(run, request), step(run, reply)]
            sound(run, request) ==> match step(run, reply) {
                Err(_) => true,
                Ok(Progress::Ask(next, asked)) => sound(next, asked) && so_far(next) == so_far(run)
                    + count(request, reply),
                Ok(Progress::Done(end)) => result(end) == so_far(run) + count(request, reply),
            },
    ensures
        ending(step, at, replies) matches Some(Ok(end)) ==> result(end) == so_far(at->Ask_0) + total(
            count,
            requests(step, at, replies),
            replies,
        ),
    decreases replies.len(),
{
    let (run, request) = (at->Ask_0, at->Ask_1);
    if replies.len() > 0 {
        if let Ok(next) = step(run, replies[0]) {
            let all = requests(step, at, replies);
            let (left, rest) = (replies.drop_first(), requests(step, next, replies.drop_first()));
            assert(all[0] == request);
            assert(all.drop_first() =~= rest);
            if next is Ask {
                counted_by_the_end(step, sound, so_far, count, result, next, left);
            } else {
                assert(rest =~= Seq::<RequestView>::empty());
            }
        }
    }
}

/// How a run goes on that holds another: it asks what the other asks, it fails where the other fails,
/// and it goes on in its own way once the other has come to a good end.
pub open spec fn goes_on_after<S, W, T, U>(
    step: Step<S, T>,
    whole: Step<W, U>,
    fault: spec_fn(Fault<Seq<char>>) -> Fault<Seq<char>>,
    after: spec_fn(T) -> Result<Progress<W, RequestView, U>, Fault<Seq<char>>>,
    at: Progress<S, RequestView, T>,
    holding: Progress<W, RequestView, U>,
    replies: Seq<ReplyView>,
) -> bool {
    let asked = requests(step, at, replies);
    let all = requests(whole, holding, replies);
    let end = ending(whole, holding, replies);
    match ending(step, at, replies) {
        None => all == asked && end is None,
        Some(Err(error)) => all == asked && end == Some(Err::<U, Fault<Seq<char>>>(fault(error))),
        Some(Ok(result)) => {
            &&& asked.len() <= replies.len()
            &&& match after(result) {
                Err(error) => all == asked && end == Some(Err::<U, Fault<Seq<char>>>(error)),
                Ok(next) => {
                    let left = replies.skip(asked.len() as int);
                    &&& all == asked + requests(whole, next, left)
                    &&& end == ending(whole, next, left)
                },
            }
        },
    }
}

/// A run that does with each reply what a run that it holds does goes on as that one does.
pub proof fn holds_a_run<S, W, T, U>(
    step: Step<S, T>,
    whole: Step<W, U>,
    hold: spec_fn(S) -> W,
    fault: spec_fn(Fault<Seq<char>>) -> Fault<Seq<char>>,
    after: spec_fn(T) -> Result<Progress<W, RequestView, U>, Fault<Seq<char>>>,
    run: S,
    request: RequestView,
    replies: Seq<ReplyView>,
)
    requires
        forall|run: S, reply: ReplyView|
            #[trigger] whole(hold(run), reply) == match step(run, reply) {
                Err(error) => Err(fault(error)),
                Ok(Progress::Ask(next, asked)) => Ok(Progress::Ask(hold(next), asked)),
                Ok(Progress::Done(result)) => after(result),
            },
    ensures
        goes_on_after(
            step,
            whole,
            fault,
            after,
            Progress::Ask(run, request),
            Progress::Ask(hold(run), request),
            replies,
        ),
    decreases replies.len(),
{
    let at = Progress::Ask(run, request);
    let holding = Progress::Ask(hold(run), request);
    let asked = requests(step, at, replies);
    let all = requests(whole, holding, replies);
    if replies.len() > 0 {
        let left = replies.drop_first();
        assert(whole(hold(run), replies[0]) == match step(run, replies[0]) {
            Err(error) => Err(fault(error)),
            Ok(Progress::Ask(next, asked)) => Ok(Progress::Ask(hold(next), asked)),
            Ok(Progress::Done(result)) => after(result),
        });
        match step(run, replies[0]) {
            Err(_) => {},
            Ok(Progress::Ask(next, again)) => {
                holds_a_run(step, whole, hold, fault, after, next, again, left);
                let some = requests(step, Progress::Ask(next, again), left);
                assert(asked == seq![request] + some);
                if let Some(Ok(result)) = ending(step, at, replies) {
                    assert(replies.skip(asked.len() as int) =~= left.skip(some.len() as int));
                    if let Ok(point) = after(result) {
                        let rest = requests(whole, point, replies.skip(asked.len() as int));
                        assert(all =~= seq![request] + (some + rest));
                        assert(all =~= asked + rest);
                    }
                }
            },
            Ok(Progress::Done(result)) => {
                let end: Progress<S, RequestView, T> = Progress::Done(result);
                assert(requests(step, end, left) =~= Seq::<RequestView>::empty());
                assert(asked =~= seq![request]);
                assert(replies.skip(1) =~= left);
                if let Ok(point) = after(result) {
                    assert(all =~= asked + requests(whole, point, replies.skip(1)));
                }
            },
        }
    }
}

/// The first exchanges of a run.
pub open spec fn exchanges(
    asked: Seq<RequestView>,
    replies: Seq<ReplyView>,
    count: nat,
) -> Seq<(RequestView, ReplyView)> {
    Seq::new(count, |i: int| (asked[i], replies[i]))
}

/// What holds of the first state, given the exchanges before it, and is kept by every step, given its
/// exchange on top, holds of every request of a run and of what came before it.
pub proof fn kept_with_history<S, T>(
    step: Step<S, T>,
    sound: spec_fn(S, RequestView, Seq<(RequestView, ReplyView)>) -> bool,
    fine: spec_fn(RequestView, Seq<(RequestView, ReplyView)>) -> bool,
    at: Progress<S, RequestView, T>,
    replies: Seq<ReplyView>,
    before: Seq<(RequestView, ReplyView)>,
)
    requires
        at matches Progress::Ask(run, request) ==> sound(run, request, before),
        forall|run: S, request: RequestView, past: Seq<(RequestView, ReplyView)>| #[trigger]
            sound(run, request, past) ==> fine(request, past),
        forall|
            run: S,
            request: RequestView,
            past: Seq<(RequestView, ReplyView)>,
            reply: ReplyView,
        |
            #![trigger sound(run, request, past), step(run, reply)]
            sound(run, request, past) ==> (step(run, reply) matches Ok(Progress::Ask(next, asked))
                ==> sound(next, asked, past.push((request, reply)))),
    ensures
        requests(step, at, replies).len() <= replies.len() + 1,
        forall|i: int|
            0 <= i < requests(step, at, replies).len() ==> fine(
                #[trigger] requests(step, at, replies)[i],
                before + exchanges(requests(step, at, replies), replies, i as nat),
            ),
    decreases replies.len(),
{
    let all = requests(step, at, replies);
    no_more_requests_than_replies(step, at, replies);
    if let Progress::Ask(run, request) = at {
        assert(sound(run, request, before));
        assert(all[0] == request);
        assert(before + exchanges(all, replies, 0) =~= before);
        if replies.len() > 0 {
            if let Ok(next) = step(run, replies[0]) {
                let (left, rest) = (
                    replies.drop_first(),
                    requests(step, next, replies.drop_first()),
                );
                let more = before.push((request, replies[0]));
                kept_with_history(step, sound, fine, next, left, more);
                assert forall|i: int| 0 <= i < all.len() implies fine(
                    #[trigger] all[i],
                    before + exchanges(all, replies, i as nat),
                ) by {
                    if i > 0 {
                        assert(all[i] == rest[i - 1]);
                        assert(more + exchanges(rest, left, (i - 1) as nat) =~= before
                            + exchanges(all, replies, i as nat));
                    }
                }
            } else {
                assert(all =~= seq![request]);
            }
        } else {
            assert(all =~= seq![request]);
        }
    }
}

/// A run whose states are sound, and that is answered as fits, fails only for a reason.
pub proof fn fails_for_a_reason<S, T>(
    step: Step<S, T>,
    sound: spec_fn(S, RequestView, Seq<(RequestView, ReplyView)>) -> bool,
    fits: spec_fn(RequestView, ReplyView) -> bool,
    reason: spec_fn(Fault<Seq<char>>, Seq<(RequestView, ReplyView)>) -> bool,
    at: Progress<S, RequestView, T>,
    replies: Seq<ReplyView>,
    before: Seq<(RequestView, ReplyView)>,
)
    requires
        at matches Progress::Ask(run, request) ==> sound(run, request, before),
        forall|
            run: S,
            request: RequestView,
            past: Seq<(RequestView, ReplyView)>,
            reply: ReplyView,
        |
            #![trigger sound(run, request, past), step(run, reply)]
            sound(run, request, past) && fits(request, reply) ==> match step(run, reply) {
                Ok(Progress::Ask(next, asked)) => sound(next, asked, past.push((request, reply))),
                Ok(Progress::Done(_)) => true,
                Err(fault) => reason(fault, past.push((request, reply))),
            },
        forall|i: int|
            0 <= i < requests(step, at, replies).len() && i < replies.len() ==> fits(
                #[trigger] requests(step, at, replies)[i],
                replies[i],
            ),
    ensures
        ending(step, at, replies) matches Some(Err(fault)) ==> {
            let asked = requests(step, at, replies);
            asked.len() <= replies.len() && reason(
                fault,
                before + exchanges(asked, replies, asked.len()),
            )
        },
    decreases replies.len(),
{
    let all = requests(step, at, replies);
    if let Progress::Ask(run, request) = at {
        assert(sound(run, request, before));
        assert(all[0] == request);
        if replies.len() > 0 {
            let left = replies.drop_first();
            let more = before.push((request, replies[0]));
            assert(fits(all[0], replies[0]));
            match step(run, replies[0]) {
                Ok(next) => {
                    let rest = requests(step, next, left);
                    assert(all == seq![request] + rest);
                    assert forall|i: int| 0 <= i < rest.len() && i < left.len() implies fits(
                        #[trigger] rest[i],
                        left[i],
                    ) by {
                        assert(all[i + 1] == rest[i]);
                        assert(fits(all[i + 1], replies[i + 1]));
                    }
                    fails_for_a_reason(step, sound, fits, reason, next, left, more);
                    if ending(step, next, left) matches Some(Err(_)) {
                        assert(more + exchanges(rest, left, rest.len()) =~= before + exchanges(
                            all,
                            replies,
                            all.len(),
                        ));
                    }
                },
                Err(_) => {
                    assert(all =~= seq![request]);
                    assert(before + exchanges(all, replies, 1) =~= more);
                },
            }
        }
    }
}

/// A run whose states are sound, that is answered as fits, and that comes to a good end only by a
/// closing request, closes with it, and asks for nothing of that sort before.
pub proof fn closes_with<S, T>(
    step: Step<S, T>,
    sound: spec_fn(S, RequestView, Seq<(RequestView, ReplyView)>) -> bool,
    fits: spec_fn(RequestView, ReplyView) -> bool,
    closing: spec_fn(RequestView) -> bool,
    run: S,
    request: RequestView,
    replies: Seq<ReplyView>,
    before: Seq<(RequestView, ReplyView)>,
)
    requires
        sound(run, request, before),
        forall|
            run: S,
            request: RequestView,
            past: Seq<(RequestView, ReplyView)>,
            reply: ReplyView,
        |
            #![trigger sound(run, request, past), step(run, reply)]
            sound(run, request, past) && fits(request, reply) ==> match step(run, reply) {
                Ok(Progress::Ask(next, asked)) => !closing(request) && sound(
                    next,
                    asked,
                    past.push((request, reply)),
                ),
                Ok(Progress::Done(_)) => closing(request),
                Err(_) => true,
            },
        forall|i: int|
            0 <= i < requests(step, Progress::Ask(run, request), replies).len() && i < replies.len()
                ==> fits(
                #[trigger] requests(step, Progress::Ask(run, request), replies)[i],
                replies[i],
            ),
    ensures
        ({
            let asked = requests(step, Progress::Ask(run, request), replies);
            &&& asked.len() > 0
            &&& ending(step, Progress::Ask(run, request), replies) matches Some(Ok(_)) ==> closing(
                asked.last(),
            )
            &&& forall|i: int| 0 <= i < asked.len() - 1 ==> !closing(#[trigger] asked[i])
        }),
    decreases replies.len(),
{
    let at = Progress::Ask(run, request);
    let all = requests(step, at, replies);
    assert(all[0] == request);
    if replies.len() > 0 {
        let left = replies.drop_first();
        assert(fits(all[0], replies[0]));
        match step(run, replies[0]) {
            Ok(Progress::Ask(next, asked)) => {
                let rest = requests(step, Progress::Ask(next, asked), left);
                assert(all == seq![request] + rest);
                assert forall|i: int| 0 <= i < rest.len() && i < left.len() implies fits(
                    #[trigger] rest[i],
                    left[i],
                ) by {
                    assert(all[i + 1] == rest[i]);
                    assert(fits(all[i + 1], replies[i + 1]));
                }
                closes_with(
                    step,
                    sound,
                    fits,
                    closing,
                    next,
                    asked,
                    left,
                    before.push((request, replies[0])),
                );
                assert(all.last() == rest.last());
                assert forall|i: int| 0 <= i < all.len() - 1 implies !closing(#[trigger] all[i]) by {
                    if i > 0 {
                        assert(all[i] == rest[i - 1]);
                    }
                }
            },
            Ok(Progress::Done(result)) => {
                let end: Progress<S, RequestView, T> = Progress::Done(result);
                assert(requests(step, end, left) =~= Seq::<RequestView>::empty());
                assert(all =~= seq![request]);
            },
            Err(_) => {
                assert(all =~= seq![request]);
            },
        }
    } else {
        assert(all =~= seq![request]);
    }
}

} // verus!
