//! A two-phase commit model: a transaction manager and a configurable number
//! of resource managers agree to commit or abort a transaction, with every
//! sent message kept visible. Each resource manager's status is held in four
//! bits of one word, so a state is a small copyable value and the transition
//! function is plain arithmetic.

use vstd::prelude::*;
use crate::model::Model;
use crate::model::PropertyKind;
use crate::model::spec_mix;
use crate::model::mix_fp;

verus! {

/// Resource manager status codes, four bits each.
pub const RM_WORKING: u64 = 0;

pub const RM_PREPARED: u64 = 1;

pub const RM_COMMITTED: u64 = 2;

pub const RM_ABORTED: u64 = 3;

/// The transaction manager's status.
#[derive(Clone, Copy, Debug, PartialEq, Eq, Hash, Structural)]
pub enum TmStatus {
    Init,
    Committed,
    Aborted,
}

/// A snapshot of the whole protocol: per-manager statuses packed four bits
/// each, the transaction manager's status and received-prepared set, and the
/// messages sent so far (messages are never retracted).
#[derive(Clone, Copy, Debug, PartialEq, Eq, Hash, Structural)]
pub struct TwoPhaseState {
    /// Bits `4*i..4*i+4`: the status of resource manager `i`.
    pub rm: u64,
    pub tm: TmStatus,
    /// Bit `i`: the transaction manager has received "prepared" from `i`.
    pub tm_prepared: u64,
    /// Bit `i`: resource manager `i`'s "prepared" message has been sent.
    pub msg_prepared: u64,
    /// A "commit" message has been sent.
    pub msg_commit: bool,
    /// An "abort" message has been sent.
    pub msg_abort: bool,
}

/// One protocol step.
#[derive(Clone, Copy, Debug, PartialEq, Eq, Structural)]
pub enum TwoPhaseAction {
    /// The transaction manager receives "prepared" from manager `i`.
    TmRcvPrepared(usize),
    /// The transaction manager commits (all managers prepared).
    TmCommit,
    /// The transaction manager aborts.
    TmAbort,
    /// Resource manager `i` prepares and sends "prepared".
    RmPrepare(usize),
    /// Resource manager `i` spontaneously aborts.
    RmChooseAbort(usize),
    /// Resource manager `i` receives the "commit" message.
    RmRcvCommit(usize),
    /// Resource manager `i` receives the "abort" message.
    RmRcvAbort(usize),
}

/// The status of resource manager `i`.
pub open spec fn spec_rm_at(rm: u64, i: int) -> u64 {
    (rm >> ((4 * i) as u64)) & 15
}

/// `rm` with resource manager `i`'s status replaced by `code`.
pub open spec fn spec_rm_set(rm: u64, i: int, code: u64) -> u64 {
    (rm & !(15u64 << ((4 * i) as u64))) | (code << ((4 * i) as u64))
}

/// Bit `i` of `mask`.
pub open spec fn spec_bit(mask: u64, i: int) -> bool {
    (mask >> (i as u64)) & 1 == 1
}

/// `mask` with bit `i` set.
pub open spec fn spec_bit_set(mask: u64, i: int) -> u64 {
    mask | (1u64 << (i as u64))
}

fn rm_at(rm: u64, i: usize) -> (r: u64)
    requires
        i < 15,
    ensures
        r == spec_rm_at(rm, i as int),
{
    (rm >> ((4 * i) as u64)) & 15
}

fn rm_set(rm: u64, i: usize, code: u64) -> (r: u64)
    requires
        i < 15,
    ensures
        r == spec_rm_set(rm, i as int, code),
{
    (rm & !(15u64 << ((4 * i) as u64))) | (code << ((4 * i) as u64))
}

fn bit(mask: u64, i: usize) -> (r: bool)
    requires
        i < 15,
    ensures
        r == spec_bit(mask, i as int),
{
    (mask >> (i as u64)) & 1 == 1
}

fn bit_set(mask: u64, i: usize) -> (r: u64)
    requires
        i < 15,
    ensures
        r == spec_bit_set(mask, i as int),
{
    mask | (1u64 << (i as u64))
}

/// `if c { seq![a] } else { empty }`: one optionally enabled action.
pub open spec fn opt_act(c: bool, a: TwoPhaseAction) -> Seq<TwoPhaseAction> {
    if c {
        seq![a]
    } else {
        Seq::empty()
    }
}

/// A two-phase commit system over `rm_count` resource managers. The packed
/// state holds four bits per manager, so at most fifteen managers take part:
/// a larger count is capped.
pub struct TwoPhaseSys {
    pub rm_count: usize,
}

impl TwoPhaseSys {
    /// The effective number of resource managers.
    pub open spec fn n(self) -> int {
        if self.rm_count <= 15 {
            self.rm_count as int
        } else {
            15
        }
    }

    fn n_exec(&self) -> (r: usize)
        ensures
            r as int == self.n(),
    {
        if self.rm_count <= 15 {
            self.rm_count
        } else {
            15
        }
    }

    /// The single initial state: everyone working, nothing sent.
    pub open spec fn init_state(self) -> TwoPhaseState {
        TwoPhaseState {
            rm: 0,
            tm: TmStatus::Init,
            tm_prepared: 0,
            msg_prepared: 0,
            msg_commit: false,
            msg_abort: false,
        }
    }

    /// The transaction manager has received "prepared" from every manager.
    pub open spec fn all_prepared(self, s: TwoPhaseState) -> bool {
        forall|i: int| 0 <= i < self.n() ==> spec_bit(s.tm_prepared, i)
    }

    /// Whether action `a` is enabled in `s`.
    pub open spec fn guard(self, s: TwoPhaseState, a: TwoPhaseAction) -> bool {
        match a {
            TwoPhaseAction::TmRcvPrepared(i) => (i as int) < self.n() && s.tm == TmStatus::Init
                && spec_bit(s.msg_prepared, i as int),
            TwoPhaseAction::TmCommit => s.tm == TmStatus::Init && self.all_prepared(s),
            TwoPhaseAction::TmAbort => s.tm == TmStatus::Init,
            TwoPhaseAction::RmPrepare(i) => (i as int) < self.n() && spec_rm_at(s.rm, i as int)
                == RM_WORKING,
            TwoPhaseAction::RmChooseAbort(i) => (i as int) < self.n() && spec_rm_at(s.rm, i as int)
                == RM_WORKING,
            TwoPhaseAction::RmRcvCommit(i) => (i as int) < self.n() && s.msg_commit,
            TwoPhaseAction::RmRcvAbort(i) => (i as int) < self.n() && s.msg_abort,
        }
    }

    /// The successor of `s` under an enabled action `a`.
    pub open spec fn succ(self, s: TwoPhaseState, a: TwoPhaseAction) -> TwoPhaseState {
        match a {
            TwoPhaseAction::TmRcvPrepared(i) => TwoPhaseState {
                tm_prepared: spec_bit_set(s.tm_prepared, i as int),
                ..s
            },
            TwoPhaseAction::TmCommit => TwoPhaseState {
                tm: TmStatus::Committed,
                msg_commit: true,
                ..s
            },
            TwoPhaseAction::TmAbort => TwoPhaseState { tm: TmStatus::Aborted, msg_abort: true, ..s },
            TwoPhaseAction::RmPrepare(i) => TwoPhaseState {
                rm: spec_rm_set(s.rm, i as int, RM_PREPARED),
                msg_prepared: spec_bit_set(s.msg_prepared, i as int),
                ..s
            },
            TwoPhaseAction::RmChooseAbort(i) => TwoPhaseState {
                rm: spec_rm_set(s.rm, i as int, RM_ABORTED),
                ..s
            },
            TwoPhaseAction::RmRcvCommit(i) => TwoPhaseState {
                rm: spec_rm_set(s.rm, i as int, RM_COMMITTED),
                ..s
            },
            TwoPhaseAction::RmRcvAbort(i) => TwoPhaseState {
                rm: spec_rm_set(s.rm, i as int, RM_ABORTED),
                ..s
            },
        }
    }

    fn check_all_prepared(&self, s: &TwoPhaseState) -> (r: bool)
        ensures
            r == self.all_prepared(*s),
    {
        let n = self.n_exec();
        let mut all = true;
        let mut i: usize = 0;
        while i < n
            invariant
                i <= n,
                n as int == self.n(),
                all == forall|k: int| 0 <= k < i ==> spec_bit(s.tm_prepared, k),
            decreases n - i,
        {
            if !bit(s.tm_prepared, i) {
                all = false;
            }
            i = i + 1;
        }
        all
    }

    /// The actions contributed by resource manager `i`, in a fixed order.
    pub open spec fn rm_acts(self, s: TwoPhaseState, i: int) -> Seq<TwoPhaseAction> {
        opt_act(
            s.tm == TmStatus::Init && spec_bit(s.msg_prepared, i),
            TwoPhaseAction::TmRcvPrepared(i as usize),
        ) + opt_act(spec_rm_at(s.rm, i) == RM_WORKING, TwoPhaseAction::RmPrepare(i as usize))
            + opt_act(spec_rm_at(s.rm, i) == RM_WORKING, TwoPhaseAction::RmChooseAbort(i as usize))
            + opt_act(s.msg_commit, TwoPhaseAction::RmRcvCommit(i as usize)) + opt_act(
            s.msg_abort,
            TwoPhaseAction::RmRcvAbort(i as usize),
        )
    }

    /// The actions of resource managers `0..i`, concatenated.
    pub open spec fn rm_acts_upto(self, s: TwoPhaseState, i: int) -> Seq<TwoPhaseAction>
        decreases i,
    {
        if i <= 0 {
            Seq::empty()
        } else {
            self.rm_acts_upto(s, i - 1) + self.rm_acts(s, i - 1)
        }
    }
}

impl Model for TwoPhaseSys {
    type State = TwoPhaseState;

    type Action = TwoPhaseAction;

    open spec fn state_wf(&self, s: TwoPhaseState) -> bool {
        true
    }

    open spec fn spec_init(&self) -> Seq<TwoPhaseState> {
        seq![self.init_state()]
    }

    open spec fn spec_actions(&self, s: TwoPhaseState) -> Seq<TwoPhaseAction> {
        self.rm_acts_upto(s, self.n()) + opt_act(
            s.tm == TmStatus::Init && self.all_prepared(s),
            TwoPhaseAction::TmCommit,
        ) + opt_act(s.tm == TmStatus::Init, TwoPhaseAction::TmAbort)
    }

    open spec fn spec_next(&self, s: TwoPhaseState, a: TwoPhaseAction) -> Option<TwoPhaseState> {
        if self.guard(s, a) {
            Some(self.succ(s, a))
        } else {
            None
        }
    }

    open spec fn spec_fingerprint(&self, s: TwoPhaseState) -> u64 {
        let tmc: u64 = match s.tm {
            TmStatus::Init => 0,
            TmStatus::Committed => 1,
            TmStatus::Aborted => 2,
        };
        let flags: u64 = if s.msg_commit && s.msg_abort {
            3
        } else if s.msg_commit {
            1
        } else if s.msg_abort {
            2
        } else {
            0
        };
        spec_mix(spec_mix(spec_mix(spec_mix(s.rm, s.tm_prepared), s.msg_prepared), tmc), flags)
    }

    open spec fn spec_property_count(&self) -> usize {
        3
    }

    open spec fn spec_property_kind(&self, p: int) -> PropertyKind {
        if p == 0 {
            PropertyKind::Always
        } else {
            PropertyKind::Sometimes
        }
    }

    open spec fn spec_property_holds(&self, p: int, s: TwoPhaseState) -> bool {
        if p == 0 {
            // consistent: no manager has aborted while another committed
            !((exists|i: int| 0 <= i < self.n() && spec_rm_at(s.rm, i) == RM_ABORTED) && (
            exists|j: int| 0 <= j < self.n() && spec_rm_at(s.rm, j) == RM_COMMITTED))
        } else if p == 1 {
            // abort agreement: every manager has aborted
            forall|i: int| 0 <= i < self.n() ==> spec_rm_at(s.rm, i) == RM_ABORTED
        } else {
            // commit agreement: every manager has committed
            forall|i: int| 0 <= i < self.n() ==> spec_rm_at(s.rm, i) == RM_COMMITTED
        }
    }

    proof fn lemma_init_wf(&self) {
    }

    proof fn lemma_next_wf(&self, s: TwoPhaseState, a: TwoPhaseAction) {
    }

    fn init_states(&self) -> (r: Vec<TwoPhaseState>)
    {
        let mut r: Vec<TwoPhaseState> = Vec::new();
        r.push(
            TwoPhaseState {
                rm: 0,
                tm: TmStatus::Init,
                tm_prepared: 0,
                msg_prepared: 0,
                msg_commit: false,
                msg_abort: false,
            },
        );
        proof {
            assert(r@ =~= seq![self.init_state()]);
        }
        r
    }

    #[verifier::rlimit(100)]
    fn actions(&self, s: &TwoPhaseState) -> (r: Vec<TwoPhaseAction>)
    {
        let n = self.n_exec();
        let mut r: Vec<TwoPhaseAction> = Vec::new();
        let mut i: usize = 0;
        proof {
            assert(r@ =~= self.rm_acts_upto(*s, 0));
        }
        while i < n
            invariant
                i <= n,
                n as int == self.n(),
                r@ == self.rm_acts_upto(*s, i as int),
            decreases n - i,
        {
            let ghost before = r@;
            if s.tm == TmStatus::Init && bit(s.msg_prepared, i) {
                r.push(TwoPhaseAction::TmRcvPrepared(i));
            }
            proof {
                assert(r@ =~= before + opt_act(
                    s.tm == TmStatus::Init && spec_bit(s.msg_prepared, i as int),
                    TwoPhaseAction::TmRcvPrepared(i),
                ));
            }
            let ghost p1 = r@;
            let working = rm_at(s.rm, i) == RM_WORKING;
            if working {
                r.push(TwoPhaseAction::RmPrepare(i));
            }
            proof {
                assert(r@ =~= p1 + opt_act(
                    spec_rm_at(s.rm, i as int) == RM_WORKING,
                    TwoPhaseAction::RmPrepare(i),
                ));
            }
            let ghost p2 = r@;
            if working {
                r.push(TwoPhaseAction::RmChooseAbort(i));
            }
            proof {
                assert(r@ =~= p2 + opt_act(
                    spec_rm_at(s.rm, i as int) == RM_WORKING,
                    TwoPhaseAction::RmChooseAbort(i),
                ));
            }
            let ghost p3 = r@;
            if s.msg_commit {
                r.push(TwoPhaseAction::RmRcvCommit(i));
            }
            proof {
                assert(r@ =~= p3 + opt_act(s.msg_commit, TwoPhaseAction::RmRcvCommit(i)));
            }
            let ghost p4 = r@;
            if s.msg_abort {
                r.push(TwoPhaseAction::RmRcvAbort(i));
            }
            proof {
                assert(r@ =~= p4 + opt_act(s.msg_abort, TwoPhaseAction::RmRcvAbort(i)));
                assert(r@ =~= before + self.rm_acts(*s, i as int));
            }
            i = i + 1;
        }
        // the transaction manager's own actions come last
        let all_prep = self.check_all_prepared(s);
        let ghost mid = r@;
        if s.tm == TmStatus::Init && all_prep {
            r.push(TwoPhaseAction::TmCommit);
        }
        let ghost mid2 = r@;
        if s.tm == TmStatus::Init {
            r.push(TwoPhaseAction::TmAbort);
        }
        proof {
            assert(mid2 =~= mid + opt_act(
                s.tm == TmStatus::Init && self.all_prepared(*s),
                TwoPhaseAction::TmCommit,
            ));
            assert(r@ =~= mid2 + opt_act(s.tm == TmStatus::Init, TwoPhaseAction::TmAbort));
            assert(r@ =~= self.spec_actions(*s));
        }
        r
    }

    fn next_state(&self, s: &TwoPhaseState, a: &TwoPhaseAction) -> (r: Option<TwoPhaseState>)
    {
        let n = self.n_exec();
        match a {
            TwoPhaseAction::TmRcvPrepared(i) => {
                if *i < n && s.tm == TmStatus::Init && bit(s.msg_prepared, *i) {
                    Some(TwoPhaseState { tm_prepared: bit_set(s.tm_prepared, *i), ..*s })
                } else {
                    None
                }
            },
            TwoPhaseAction::TmCommit => {
                if s.tm == TmStatus::Init && self.check_all_prepared(s) {
                    Some(TwoPhaseState { tm: TmStatus::Committed, msg_commit: true, ..*s })
                } else {
                    None
                }
            },
            TwoPhaseAction::TmAbort => {
                if s.tm == TmStatus::Init {
                    Some(TwoPhaseState { tm: TmStatus::Aborted, msg_abort: true, ..*s })
                } else {
                    None
                }
            },
            TwoPhaseAction::RmPrepare(i) => {
                if *i < n && rm_at(s.rm, *i) == RM_WORKING {
                    Some(
                        TwoPhaseState {
                            rm: rm_set(s.rm, *i, RM_PREPARED),
                            msg_prepared: bit_set(s.msg_prepared, *i),
                            ..*s
                        },
                    )
                } else {
                    None
                }
            },
            TwoPhaseAction::RmChooseAbort(i) => {
                if *i < n && rm_at(s.rm, *i) == RM_WORKING {
                    Some(TwoPhaseState { rm: rm_set(s.rm, *i, RM_ABORTED), ..*s })
                } else {
                    None
                }
            },
            TwoPhaseAction::RmRcvCommit(i) => {
                if *i < n && s.msg_commit {
                    Some(TwoPhaseState { rm: rm_set(s.rm, *i, RM_COMMITTED), ..*s })
                } else {
                    None
                }
            },
            TwoPhaseAction::RmRcvAbort(i) => {
                if *i < n && s.msg_abort {
                    Some(TwoPhaseState { rm: rm_set(s.rm, *i, RM_ABORTED), ..*s })
                } else {
                    None
                }
            },
        }
    }

    fn fingerprint(&self, s: &TwoPhaseState) -> (r: u64)
    {
        let tmc: u64 = match s.tm {
            TmStatus::Init => 0,
            TmStatus::Committed => 1,
            TmStatus::Aborted => 2,
        };
        let flags: u64 = if s.msg_commit && s.msg_abort {
            3
        } else if s.msg_commit {
            1
        } else if s.msg_abort {
            2
        } else {
            0
        };
        mix_fp(mix_fp(mix_fp(mix_fp(s.rm, s.tm_prepared), s.msg_prepared), tmc), flags)
    }

    fn clone_state(&self, s: &TwoPhaseState) -> (r: TwoPhaseState)
    {
        *s
    }

    fn clone_action(&self, a: &TwoPhaseAction) -> (r: TwoPhaseAction)
    {
        *a
    }

    fn property_count(&self) -> (r: usize)
    {
        3
    }

    fn property_kind(&self, p: usize) -> (r: PropertyKind)
    {
        if p == 0 {
            PropertyKind::Always
        } else {
            PropertyKind::Sometimes
        }
    }

    fn eval_property(&self, p: usize, s: &TwoPhaseState) -> (r: bool)
    {
        let n = self.n_exec();
        if p == 0 {
            let mut has_abort = false;
            let mut has_commit = false;
            let mut i: usize = 0;
            while i < n
                invariant
                    i <= n,
                    n as int == self.n(),
                    has_abort == exists|k: int| 0 <= k < i && spec_rm_at(s.rm, k) == RM_ABORTED,
                    has_commit == exists|k: int| 0 <= k < i && spec_rm_at(s.rm, k) == RM_COMMITTED,
                decreases n - i,
            {
                let st = rm_at(s.rm, i);
                if st == RM_ABORTED {
                    has_abort = true;
                    proof {
                        assert(spec_rm_at(s.rm, i as int) == RM_ABORTED);
                    }
                }
                if st == RM_COMMITTED {
                    has_commit = true;
                    proof {
                        assert(spec_rm_at(s.rm, i as int) == RM_COMMITTED);
                    }
                }
                i = i + 1;
            }
            !(has_abort && has_commit)
        } else {
            let want: u64 = if p == 1 {
                RM_ABORTED
            } else {
                RM_COMMITTED
            };
            let mut all = true;
            let mut i: usize = 0;
            while i < n
                invariant
                    i <= n,
                    n as int == self.n(),
                    want == (if p == 1 {
                        RM_ABORTED
                    } else {
                        RM_COMMITTED
                    }),
                    all == forall|k: int| 0 <= k < i ==> spec_rm_at(s.rm, k) == want,
                decreases n - i,
            {
                if rm_at(s.rm, i) != want {
                    all = false;
                }
                i = i + 1;
            }
            all
        }
    }
}

/// A convenience constructor for a system of `rm_count` resource managers.
pub fn two_phase_sys(rm_count: usize) -> (r: TwoPhaseSys)
    ensures
        r.rm_count == rm_count,
{
    TwoPhaseSys { rm_count }
}

} // verus!
