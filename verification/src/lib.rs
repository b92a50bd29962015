//! Evaluates tabletop dice-roll requests: a small notation is parsed into
//! typed roll requests, the dice are rolled, and an ordered list of actions
//! transforms the rolls into the final, rendered result.

pub mod actions;
pub mod dice;
pub mod errors;
pub mod generators;
pub mod io;
pub mod rng;
pub mod text;

pub use crate::actions::Action;

use crate::actions::{
    fudge_apply_fails, fudge_apply_post, num_apply_fails, num_apply_post, total_desc,
    total_vals_sum, Aggregation, Apply, TotalSum,
};
use crate::dice::{
    fudge_dice_eqv, num_dice_eqv, DiceBounds, DiceGenerator, FudgeDice, FudgeRoll, FudgeRolls,
    FudgeRollRequest, NumericDice, NumericRoll, NumericRolls, NumericRollRequest, RollBounds,
    RollRequest, Rolls,
};
use crate::errors::{Error, ErrorKind};
use vstd::prelude::*;

verus! {

/// All the roll results of one roll type: the retained requests, the current
/// rolls of each, and the generator that draws any further values.
#[derive(Debug)]
pub struct TypedRollSession<T: RollBounds, V: DiceBounds> {
    pub requests: Vec<RollRequest<V>>,
    pub rolls: Vec<Rolls<T, V>>,
    pub dice: DiceGenerator,
}

pub type NumericSession = TypedRollSession<NumericRoll, NumericDice>;

pub type FudgeSession = TypedRollSession<FudgeRoll, FudgeDice>;

/// What one transformation step does to a numeric session's rolls: `Total`
/// collapses everything into one aggregate entry, every other action is
/// applied to each roll result.
pub open spec fn num_session_step(
    pre: Seq<NumericRolls>,
    action: Action,
    post: Seq<NumericRolls>,
) -> bool {
    if action is Total {
        &&& total_vals_sum(pre) <= u32::MAX
        &&& post.len() == 1
        &&& post[0].dice == NumericDice::AggregationResult
        &&& post[0].rolls@.len() == 1
        &&& post[0].rolls@[0] as int == total_vals_sum(pre)
        &&& post[0].description@ == total_desc(pre)
    } else {
        &&& post.len() == pre.len()
        &&& forall|k: int|
            0 <= k < pre.len() ==> !num_apply_fails(#[trigger] pre[k], action) && num_apply_post(
                pre[k],
                action,
                post[k],
            )
    }
}

/// What one transformation step does to a fudge session's rolls.
pub open spec fn fudge_session_step(
    pre: Seq<FudgeRolls>,
    action: Action,
    post: Seq<FudgeRolls>,
) -> bool {
    &&& post.len() == pre.len()
    &&& forall|k: int|
        0 <= k < pre.len() ==> !fudge_apply_fails(#[trigger] pre[k], action) && fudge_apply_post(
            pre[k],
            action,
            post[k],
        )
}

/// The rolls after an ordered list of transformation steps.
pub open spec fn num_session_chain(
    pre: Seq<NumericRolls>,
    actions: Seq<Action>,
    post: Seq<NumericRolls>,
) -> bool
    decreases actions.len(),
{
    if actions.len() == 0 {
        post == pre
    } else {
        exists|mid: Seq<NumericRolls>|
            num_session_step(pre, actions[0], mid) && num_session_chain(
                mid,
                actions.skip(1),
                post,
            )
    }
}

/// The fudge rolls after an ordered list of transformation steps.
pub open spec fn fudge_session_chain(
    pre: Seq<FudgeRolls>,
    actions: Seq<Action>,
    post: Seq<FudgeRolls>,
) -> bool
    decreases actions.len(),
{
    if actions.len() == 0 {
        post == pre
    } else {
        exists|mid: Seq<FudgeRolls>|
            fudge_session_step(pre, actions[0], mid) && fudge_session_chain(
                mid,
                actions.skip(1),
                post,
            )
    }
}

/// A chain extends by one step at its end.
pub proof fn lemma_num_chain_snoc(
    pre: Seq<NumericRolls>,
    acts: Seq<Action>,
    mid: Seq<NumericRolls>,
    a: Action,
    post: Seq<NumericRolls>,
)
    requires
        num_session_chain(pre, acts, mid),
        num_session_step(mid, a, post),
    ensures
        num_session_chain(pre, acts.push(a), post),
    decreases acts.len(),
{
    if acts.len() == 0 {
        assert(mid == pre);
        assert(acts.push(a)[0] == a);
        assert(acts.push(a).skip(1) =~= Seq::<Action>::empty());
        assert(num_session_chain(post, Seq::<Action>::empty(), post));
        assert(num_session_step(pre, acts.push(a)[0], post) && num_session_chain(
            post,
            acts.push(a).skip(1),
            post,
        ));
    } else {
        let m0 = choose|m0: Seq<NumericRolls>|
            num_session_step(pre, acts[0], m0) && num_session_chain(m0, acts.skip(1), mid);
        lemma_num_chain_snoc(m0, acts.skip(1), mid, a, post);
        assert(acts.push(a)[0] == acts[0]);
        assert(acts.push(a).skip(1) =~= acts.skip(1).push(a));
        assert(num_session_step(pre, acts.push(a)[0], m0) && num_session_chain(
            m0,
            acts.push(a).skip(1),
            post,
        ));
    }
}

/// A fudge chain extends by one step at its end.
pub proof fn lemma_fudge_chain_snoc(
    pre: Seq<FudgeRolls>,
    acts: Seq<Action>,
    mid: Seq<FudgeRolls>,
    a: Action,
    post: Seq<FudgeRolls>,
)
    requires
        fudge_session_chain(pre, acts, mid),
        fudge_session_step(mid, a, post),
    ensures
        fudge_session_chain(pre, acts.push(a), post),
    decreases acts.len(),
{
    if acts.len() == 0 {
        assert(mid == pre);
        assert(acts.push(a)[0] == a);
        assert(acts.push(a).skip(1) =~= Seq::<Action>::empty());
        assert(fudge_session_chain(post, Seq::<Action>::empty(), post));
        assert(fudge_session_step(pre, acts.push(a)[0], post) && fudge_session_chain(
            post,
            acts.push(a).skip(1),
            post,
        ));
    } else {
        let m0 = choose|m0: Seq<FudgeRolls>|
            fudge_session_step(pre, acts[0], m0) && fudge_session_chain(m0, acts.skip(1), mid);
        lemma_fudge_chain_snoc(m0, acts.skip(1), mid, a, post);
        assert(acts.push(a)[0] == acts[0]);
        assert(acts.push(a).skip(1) =~= acts.skip(1).push(a));
        assert(fudge_session_step(pre, acts.push(a)[0], m0) && fudge_session_chain(
            m0,
            acts.push(a).skip(1),
            post,
        ));
    }
}

impl NumericSession {
    /// Rolls every request once; no actions are applied, so nothing can fail.
    pub fn build(dice_requests: Vec<NumericRollRequest>) -> (s: NumericSession)
        requires
            forall|i: int|
                0 <= i < dice_requests@.len() ==> (#[trigger] dice_requests@[i]).dice.rollable()
                    && dice_requests@[i].actions@.len() == 0,
        ensures
            s.requests@ == dice_requests@,
            s.rolls@.len() == dice_requests@.len(),
            forall|i: int|
                0 <= i < dice_requests@.len() ==> {
                    &&& num_dice_eqv((#[trigger] s.rolls@[i]).dice, dice_requests@[i].dice)
                    &&& s.rolls@[i].description@ == crate::io::write::num_request_desc(
                        dice_requests@[i],
                    )
                    &&& s.rolls@[i].rolls@.len() == dice_requests@[i].number as int
                    &&& crate::dice::num_batch_ok(dice_requests@[i].dice, s.rolls@[i].rolls@)
                },
    {
        match Self::build_with_actions(dice_requests) {
            Ok(s) => s,
            Err(_) => {
                proof {
                    assert(false);
                }
                TypedRollSession {
                    requests: Vec::new(),
                    rolls: Vec::new(),
                    dice: DiceGenerator::new(),
                }
            },
        }
    }

    /// Rolls every request once and applies each request's own actions; the
    /// first failure aborts the whole build.
    pub fn build_with_actions(requests: Vec<NumericRollRequest>) -> (res: Result<
        NumericSession,
        Error,
    >)
        ensures
            (forall|i: int|
                0 <= i < requests@.len() ==> (#[trigger] requests@[i]).dice.rollable()
                    && requests@[i].actions@.len() == 0) ==> res is Ok,
            res matches Ok(s) ==> {
                &&& s.requests@ == requests@
                &&& s.rolls@.len() == requests@.len()
                &&& forall|i: int|
                    0 <= i < requests@.len() ==> num_dice_eqv(
                        (#[trigger] s.rolls@[i]).dice,
                        requests@[i].dice,
                    )
                &&& forall|i: int|
                    0 <= i < requests@.len() ==> ((#[trigger] requests@[i]).dice.rollable()
                        && requests@[i].actions@.len() == 0) ==> {
                        &&& s.rolls@[i].description@ == crate::io::write::num_request_desc(
                            requests@[i],
                        )
                        &&& s.rolls@[i].rolls@.len() == requests@[i].number as int
                        &&& crate::dice::num_batch_ok(requests@[i].dice, s.rolls@[i].rolls@)
                    }
            },
            res matches Ok(s) ==> forall|i: int|
                0 <= i < requests@.len() ==> crate::dice::num_request_roll_post(
                    requests@[i],
                    #[trigger] s.rolls@[i],
                ),
            res is Err ==> exists|i: int|
                0 <= i < requests@.len() && crate::dice::num_request_roll_fails(
                    #[trigger] requests@[i],
                ),
            res matches Err(e) ==> (e.kind matches ErrorKind::BadDice(_) || e.kind
                matches ErrorKind::IncompatibleAction(_) || e.kind
                matches ErrorKind::BadActionParameter(_)),
    {
        let mut dice = DiceGenerator::new();
        let mut rolls: Vec<NumericRolls> = Vec::new();
        let mut i: usize = 0;
        while i < requests.len()
            invariant
                i <= requests.len(),
                rolls@.len() == i as int,
                forall|j: int|
                    0 <= j < i ==> crate::dice::num_request_roll_post(
                        requests@[j],
                        #[trigger] rolls@[j],
                    ),
                forall|j: int|
                    0 <= j < i ==> num_dice_eqv((#[trigger] rolls@[j]).dice, requests@[j].dice),
                forall|j: int|
                    0 <= j < i ==> ((#[trigger] requests@[j]).dice.rollable()
                        && requests@[j].actions@.len() == 0) ==> {
                        &&& rolls@[j].description@ == crate::io::write::num_request_desc(
                            requests@[j],
                        )
                        &&& rolls@[j].rolls@.len() == requests@[j].number as int
                        &&& crate::dice::num_batch_ok(requests@[j].dice, rolls@[j].rolls@)
                    },
            decreases requests.len() - i,
        {
            let request = &requests[i];
            match request.roll(&mut dice) {
                Ok(r) => {
                    rolls.push(r);
                },
                Err(e) => {
                    return Err(e);
                },
            }
            i = i + 1;
        }
        Ok(TypedRollSession { requests, rolls, dice })
    }
}

impl FudgeSession {
    /// Rolls every request once; no actions are applied, so nothing can fail.
    pub fn build(dice_requests: Vec<FudgeRollRequest>) -> (s: FudgeSession)
        requires
            forall|i: int|
                0 <= i < dice_requests@.len() ==> (#[trigger] dice_requests@[i]).dice.rollable()
                    && dice_requests@[i].actions@.len() == 0,
        ensures
            s.requests@ == dice_requests@,
            s.rolls@.len() == dice_requests@.len(),
            forall|i: int|
                0 <= i < dice_requests@.len() ==> {
                    &&& fudge_dice_eqv((#[trigger] s.rolls@[i]).dice, dice_requests@[i].dice)
                    &&& s.rolls@[i].description@ == crate::io::write::fudge_request_desc(
                        dice_requests@[i],
                    )
                    &&& s.rolls@[i].rolls@.len() == dice_requests@[i].number as int
                    &&& crate::dice::fudge_batch_ok(dice_requests@[i].dice, s.rolls@[i].rolls@)
                },
    {
        match Self::build_with_actions(dice_requests) {
            Ok(s) => s,
            Err(_) => {
                proof {
                    assert(false);
                }
                TypedRollSession {
                    requests: Vec::new(),
                    rolls: Vec::new(),
                    dice: DiceGenerator::new(),
                }
            },
        }
    }

    /// Rolls every request once and applies each request's own actions; the
    /// first failure aborts the whole build.
    pub fn build_with_actions(requests: Vec<FudgeRollRequest>) -> (res: Result<
        FudgeSession,
        Error,
    >)
        ensures
            (forall|i: int|
                0 <= i < requests@.len() ==> (#[trigger] requests@[i]).dice.rollable()
                    && requests@[i].actions@.len() == 0) ==> res is Ok,
            res matches Ok(s) ==> {
                &&& s.requests@ == requests@
                &&& s.rolls@.len() == requests@.len()
                &&& forall|i: int|
                    0 <= i < requests@.len() ==> fudge_dice_eqv(
                        (#[trigger] s.rolls@[i]).dice,
                        requests@[i].dice,
                    )
                &&& forall|i: int|
                    0 <= i < requests@.len() ==> ((#[trigger] requests@[i]).dice.rollable()
                        && requests@[i].actions@.len() == 0) ==> {
                        &&& s.rolls@[i].description@ == crate::io::write::fudge_request_desc(
                            requests@[i],
                        )
                        &&& s.rolls@[i].rolls@.len() == requests@[i].number as int
                        &&& crate::dice::fudge_batch_ok(requests@[i].dice, s.rolls@[i].rolls@)
                    }
            },
            res matches Ok(s) ==> forall|i: int|
                0 <= i < requests@.len() ==> crate::dice::fudge_request_roll_post(
                    requests@[i],
                    #[trigger] s.rolls@[i],
                ),
            res is Err ==> exists|i: int|
                0 <= i < requests@.len() && crate::dice::fudge_request_roll_fails(
                    #[trigger] requests@[i],
                ),
            res matches Err(e) ==> (e.kind matches ErrorKind::BadDice(_) || e.kind
                matches ErrorKind::IncompatibleAction(_) || e.kind
                matches ErrorKind::BadActionParameter(_)),
    {
        let mut dice = DiceGenerator::new();
        let mut rolls: Vec<FudgeRolls> = Vec::new();
        let mut i: usize = 0;
        while i < requests.len()
            invariant
                i <= requests.len(),
                rolls@.len() == i as int,
                forall|j: int|
                    0 <= j < i ==> crate::dice::fudge_request_roll_post(
                        requests@[j],
                        #[trigger] rolls@[j],
                    ),
                forall|j: int|
                    0 <= j < i ==> fudge_dice_eqv((#[trigger] rolls@[j]).dice, requests@[j].dice),
                forall|j: int|
                    0 <= j < i ==> ((#[trigger] requests@[j]).dice.rollable()
                        && requests@[j].actions@.len() == 0) ==> {
                        &&& rolls@[j].description@ == crate::io::write::fudge_request_desc(
                            requests@[j],
                        )
                        &&& rolls@[j].rolls@.len() == requests@[j].number as int
                        &&& crate::dice::fudge_batch_ok(requests@[j].dice, rolls@[j].rolls@)
                    },
            decreases requests.len() - i,
        {
            let request = &requests[i];
            match request.roll(&mut dice) {
                Ok(r) => {
                    rolls.push(r);
                },
                Err(e) => {
                    return Err(e);
                },
            }
            i = i + 1;
        }
        Ok(TypedRollSession { requests, rolls, dice })
    }
}

/// A session that can take further transformation steps.
pub trait TransformableSession: Sized {
    fn add_transformation(&mut self, action: &Action) -> Result<(), Error>;

    fn add_actions(&mut self, actions: &Vec<Action>) -> Result<(), Error>;
}

impl TransformableSession for NumericSession {
    fn add_transformation(&mut self, action: &Action) -> (res: Result<(), Error>)
        ensures
            final(self).requests == old(self).requests,
            action is Total ==> (res is Ok <==> total_vals_sum(old(self).rolls@) <= u32::MAX),
            !(action is Total) ==> (res is Err <==> exists|k: int|
                0 <= k < old(self).rolls@.len() && num_apply_fails(
                    #[trigger] old(self).rolls@[k],
                    *action,
                )),
            res is Ok ==> num_session_step(old(self).rolls@, *action, final(self).rolls@),
            res is Err ==> final(self).rolls == old(self).rolls,
            res matches Err(e) ==> (e.kind matches ErrorKind::BadDice(_) || e.kind
                matches ErrorKind::IncompatibleAction(_) || e.kind
                matches ErrorKind::BadActionParameter(_)),
    {
        match action {
            Action::Total => {
                if crate::actions::total_fits(&self.rolls) {
                    let aggregate = self.rolls.total();
                    let mut rolls: Vec<NumericRolls> = Vec::new();
                    rolls.push(aggregate);
                    self.rolls = rolls;
                    Ok(())
                } else {
                    Err(crate::actions::overflow_error("Total"))
                }
            },
            _ => {
                let mut new_rolls: Vec<NumericRolls> = Vec::new();
                let mut i: usize = 0;
                while i < self.rolls.len()
                    invariant
                        i <= self.rolls.len(),
                        !(action is Total),
                        new_rolls@.len() == i as int,
                        self.rolls == old(self).rolls,
                        self.requests == old(self).requests,
                        forall|j: int|
                            0 <= j < i ==> !num_apply_fails(#[trigger] self.rolls@[j], *action)
                                && num_apply_post(self.rolls@[j], *action, new_rolls@[j]),
                    decreases self.rolls.len() - i,
                {
                    let current = &self.rolls[i];
                    match Apply::apply(current, action, &mut self.dice) {
                        Ok(next) => {
                            new_rolls.push(next);
                        },
                        Err(e) => {
                            return Err(e);
                        },
                    }
                    i = i + 1;
                }
                self.rolls = new_rolls;
                Ok(())
            },
        }
    }

    fn add_actions(&mut self, actions: &Vec<Action>) -> (res: Result<(), Error>)
        ensures
            final(self).requests == old(self).requests,
            actions@.len() == 0 ==> res is Ok && final(self).rolls == old(self).rolls,
            res is Ok ==> num_session_chain(old(self).rolls@, actions@, final(self).rolls@),
            res matches Err(e) ==> (e.kind matches ErrorKind::BadDice(_) || e.kind
                matches ErrorKind::IncompatibleAction(_) || e.kind
                matches ErrorKind::BadActionParameter(_)),
    {
        let mut i: usize = 0;
        proof {
            assert(actions@.take(0) =~= Seq::<Action>::empty());
        }
        while i < actions.len()
            invariant
                i <= actions.len(),
                self.requests == old(self).requests,
                actions@.len() == 0 ==> self.rolls == old(self).rolls,
                num_session_chain(old(self).rolls@, actions@.take(i as int), self.rolls@),
            decreases actions.len() - i,
        {
            let ghost pre = self.rolls@;
            match self.add_transformation(&actions[i]) {
                Ok(()) => {},
                Err(e) => {
                    return Err(e);
                },
            }
            proof {
                lemma_num_chain_snoc(
                    old(self).rolls@,
                    actions@.take(i as int),
                    pre,
                    actions@[i as int],
                    self.rolls@,
                );
                assert(actions@.take(i + 1) =~= actions@.take(i as int).push(actions@[i as int]));
            }
            i = i + 1;
        }
        proof {
            assert(actions@.take(actions@.len() as int) =~= actions@);
        }
        Ok(())
    }
}

impl TransformableSession for FudgeSession {
    fn add_transformation(&mut self, action: &Action) -> (res: Result<(), Error>)
        ensures
            final(self).requests == old(self).requests,
            res is Err <==> exists|k: int|
                0 <= k < old(self).rolls@.len() && fudge_apply_fails(
                    #[trigger] old(self).rolls@[k],
                    *action,
                ),
            res is Ok ==> fudge_session_step(old(self).rolls@, *action, final(self).rolls@),
            res is Err ==> final(self).rolls == old(self).rolls,
            res matches Err(e) ==> (e.kind matches ErrorKind::BadDice(_) || e.kind
                matches ErrorKind::IncompatibleAction(_) || e.kind
                matches ErrorKind::BadActionParameter(_)),
    {
        let mut new_rolls: Vec<FudgeRolls> = Vec::new();
        let mut i: usize = 0;
        while i < self.rolls.len()
            invariant
                i <= self.rolls.len(),
                new_rolls@.len() == i as int,
                self.rolls == old(self).rolls,
                self.requests == old(self).requests,
                forall|j: int|
                    0 <= j < i ==> !fudge_apply_fails(#[trigger] self.rolls@[j], *action)
                        && fudge_apply_post(self.rolls@[j], *action, new_rolls@[j]),
            decreases self.rolls.len() - i,
        {
            let current = &self.rolls[i];
            match Apply::apply(current, action, &mut self.dice) {
                Ok(next) => {
                    new_rolls.push(next);
                },
                Err(e) => {
                    return Err(e);
                },
            }
            i = i + 1;
        }
        self.rolls = new_rolls;
        Ok(())
    }

    fn add_actions(&mut self, actions: &Vec<Action>) -> (res: Result<(), Error>)
        ensures
            final(self).requests == old(self).requests,
            actions@.len() == 0 ==> res is Ok && final(self).rolls == old(self).rolls,
            res is Ok ==> fudge_session_chain(old(self).rolls@, actions@, final(self).rolls@),
            res matches Err(e) ==> (e.kind matches ErrorKind::BadDice(_) || e.kind
                matches ErrorKind::IncompatibleAction(_) || e.kind
                matches ErrorKind::BadActionParameter(_)),
    {
        let mut i: usize = 0;
        proof {
            assert(actions@.take(0) =~= Seq::<Action>::empty());
        }
        while i < actions.len()
            invariant
                i <= actions.len(),
                self.requests == old(self).requests,
                actions@.len() == 0 ==> self.rolls == old(self).rolls,
                fudge_session_chain(old(self).rolls@, actions@.take(i as int), self.rolls@),
            decreases actions.len() - i,
        {
            let ghost pre = self.rolls@;
            match self.add_transformation(&actions[i]) {
                Ok(()) => {},
                Err(e) => {
                    return Err(e);
                },
            }
            proof {
                lemma_fudge_chain_snoc(
                    old(self).rolls@,
                    actions@.take(i as int),
                    pre,
                    actions@[i as int],
                    self.rolls@,
                );
                assert(actions@.take(i + 1) =~= actions@.take(i as int).push(actions@[i as int]));
            }
            i = i + 1;
        }
        proof {
            assert(actions@.take(actions@.len() as int) =~= actions@);
        }
        Ok(())
    }
}

/// A session holding at most one numeric and one fudge sub-session, used when
/// one request string mixes both roll kinds.
#[derive(Debug)]
pub struct MultiTypeSession {
    pub numeric_session: Option<NumericSession>,
    pub fudge_session: Option<FudgeSession>,
}

impl TransformableSession for MultiTypeSession {
    fn add_transformation(&mut self, action: &Action) -> (res: Result<(), Error>)
        ensures
            old(self).numeric_session is None ==> final(self).numeric_session is None,
            old(self).fudge_session is None ==> final(self).fudge_session is None,
            res is Ok ==> (old(self).numeric_session matches Some(o) ==> (
            final(self).numeric_session matches Some(n) && n.requests == o.requests
                && num_session_step(o.rolls@, *action, n.rolls@))),
            res is Ok ==> (old(self).fudge_session matches Some(o) ==> (
            final(self).fudge_session matches Some(n) && n.requests == o.requests
                && fudge_session_step(o.rolls@, *action, n.rolls@))),
            res matches Err(e) ==> (e.kind matches ErrorKind::BadDice(_) || e.kind
                matches ErrorKind::IncompatibleAction(_) || e.kind
                matches ErrorKind::BadActionParameter(_)),
    {
        match &mut self.numeric_session {
            Some(session) => {
                match session.add_transformation(action) {
                    Ok(()) => {},
                    Err(e) => {
                        return Err(e);
                    },
                }
            },
            None => {},
        }
        match &mut self.fudge_session {
            Some(session) => {
                match session.add_transformation(action) {
                    Ok(()) => {},
                    Err(e) => {
                        return Err(e);
                    },
                }
            },
            None => {},
        }
        Ok(())
    }

    fn add_actions(&mut self, actions: &Vec<Action>) -> (res: Result<(), Error>)
        ensures
            old(self).numeric_session is None ==> final(self).numeric_session is None,
            old(self).fudge_session is None ==> final(self).fudge_session is None,
            res is Ok ==> (old(self).numeric_session matches Some(o) ==> (
            final(self).numeric_session matches Some(n) && n.requests == o.requests
                && num_session_chain(o.rolls@, actions@, n.rolls@))),
            res is Ok ==> (old(self).fudge_session matches Some(o) ==> (
            final(self).fudge_session matches Some(n) && n.requests == o.requests
                && fudge_session_chain(o.rolls@, actions@, n.rolls@))),
            res matches Err(e) ==> (e.kind matches ErrorKind::BadDice(_) || e.kind
                matches ErrorKind::IncompatibleAction(_) || e.kind
                matches ErrorKind::BadActionParameter(_)),
    {
        let mut i: usize = 0;
        proof {
            assert(actions@.take(0) =~= Seq::<Action>::empty());
        }
        while i < actions.len()
            invariant
                i <= actions.len(),
                old(self).numeric_session is None ==> self.numeric_session is None,
                old(self).fudge_session is None ==> self.fudge_session is None,
                old(self).numeric_session matches Some(o) ==> (self.numeric_session
                    matches Some(n) && n.requests == o.requests && num_session_chain(
                    o.rolls@,
                    actions@.take(i as int),
                    n.rolls@,
                )),
                old(self).fudge_session matches Some(o) ==> (self.fudge_session matches Some(n)
                    && n.requests == o.requests && fudge_session_chain(
                    o.rolls@,
                    actions@.take(i as int),
                    n.rolls@,
                )),
            decreases actions.len() - i,
        {
            let ghost before = *self;
            match self.add_transformation(&actions[i]) {
                Ok(()) => {},
                Err(e) => {
                    return Err(e);
                },
            }
            proof {
                assert(actions@.take(i + 1) =~= actions@.take(i as int).push(actions@[i as int]));
                match &old(self).numeric_session {
                    Some(o) => {
                        match (&before.numeric_session, &self.numeric_session) {
                            (Some(mid), Some(n)) => {
                                lemma_num_chain_snoc(
                                    o.rolls@,
                                    actions@.take(i as int),
                                    mid.rolls@,
                                    actions@[i as int],
                                    n.rolls@,
                                );
                            },
                            _ => {},
                        }
                    },
                    None => {},
                }
                match &old(self).fudge_session {
                    Some(o) => {
                        match (&before.fudge_session, &self.fudge_session) {
                            (Some(mid), Some(n)) => {
                                lemma_fudge_chain_snoc(
                                    o.rolls@,
                                    actions@.take(i as int),
                                    mid.rolls@,
                                    actions@[i as int],
                                    n.rolls@,
                                );
                            },
                            _ => {},
                        }
                    },
                    None => {},
                }
            }
            i = i + 1;
        }
        proof {
            assert(actions@.take(actions@.len() as int) =~= actions@);
        }
        Ok(())
    }
}

/// A session whose rolls can be collapsed by a terminal aggregation into a
/// numeric result set.
pub trait AggregatableSession: Sized {
    /// Whether the aggregation can run: the counts must fit in a roll value.
    spec fn aggregate_req(&self) -> bool;

    fn aggregate(self, action: &Aggregation) -> NumericSession
        requires
            self.aggregate_req(),
    ;
}

impl AggregatableSession for NumericSession {
    open spec fn aggregate_req(&self) -> bool {
        crate::actions::CountValues::count_req(self)
    }

    fn aggregate(self, action: &Aggregation) -> (r: NumericSession)
        ensures
            r.requests@.len() == 0,
            *action == Aggregation::CountValues ==> {
                let flat = crate::actions::flat_num(self.rolls@);
                &&& r.rolls@.len() == crate::actions::dedup(flat).len()
                &&& forall|i: int|
                    0 <= i < r.rolls@.len() ==> {
                        &&& (#[trigger] r.rolls@[i]).dice == NumericDice::AggregationResult
                        &&& r.rolls@[i].rolls@.len() == 1
                        &&& r.rolls@[i].rolls@[0] as int == crate::actions::count_occ(
                            flat,
                            crate::actions::dedup(flat)[i],
                        )
                    }
            },
    {
        match action {
            Aggregation::CountValues => crate::actions::CountValues::count(&self),
        }
    }
}

impl AggregatableSession for FudgeSession {
    open spec fn aggregate_req(&self) -> bool {
        crate::actions::CountValues::count_req(self)
    }

    fn aggregate(self, action: &Aggregation) -> (r: NumericSession)
        ensures
            r.requests@.len() == 0,
            *action == Aggregation::CountValues ==> {
                let flat = crate::actions::flat_fudge(self.rolls@);
                &&& r.rolls@.len() == crate::actions::dedup(flat).len()
                &&& forall|i: int|
                    0 <= i < r.rolls@.len() ==> {
                        &&& (#[trigger] r.rolls@[i]).dice == NumericDice::AggregationResult
                        &&& r.rolls@[i].rolls@.len() == 1
                        &&& r.rolls@[i].rolls@[0] as int == crate::actions::count_occ(
                            flat,
                            crate::actions::dedup(flat)[i],
                        )
                    }
            },
    {
        match action {
            Aggregation::CountValues => crate::actions::CountValues::count(&self),
        }
    }
}

} // verus!
