//! Batch orchestration: apply pending changes across a selection of cores
//! in a fixed order, with defined partial-failure behaviour.
//!
//! A [`Batch`] is a step machine driven by the caller, who owns the actual
//! attribute writes. The machine hands out one validated [`WriteCmd`] at a
//! time ([`Batch::next_write`]); the caller performs the write and reports
//! [`Batch::write_succeeded`] — which commits the value to the in-memory
//! record — or [`Batch::write_failed`], which aborts the rest of the batch
//! and leaves the record untouched. Writes are issued governor first, then
//! lower bounds, then upper bounds, each phase visiting the selected cores
//! in ascending number order; the first failure aborts the batch, and
//! changes already committed are not rolled back.

use vstd::prelude::*;

use crate::discovery::core_views;
use crate::discovery::sort_cores_by_num;
use crate::discovery::sorted_by_num;
use crate::errors::CoreError;
use crate::record::Core;
use crate::record::CoreView;

verus! {

/// Which of the three mutable settings a write changes.
#[derive(Clone, Copy, Debug, PartialEq, Eq, Structural)]
pub enum ChangeKind {
    Governor,
    MinFreq,
    MaxFreq,
}

/// The order in which change kinds are applied across a batch: all governor
/// writes, then all lower-bound writes, then all upper-bound writes.
pub open spec fn kind_rank(k: ChangeKind) -> int {
    match k {
        ChangeKind::Governor => 0,
        ChangeKind::MinFreq => 1,
        ChangeKind::MaxFreq => 2,
    }
}

/// One write the caller must perform against a core's backing attribute.
#[derive(Clone, Debug, PartialEq, Eq)]
pub enum WriteCmd {
    /// Write `name` to the governor attribute of core `core_num`.
    Governor { core_num: u32, name: String },
    /// Write `freq` to the lower scaling bound attribute of core `core_num`.
    MinFreq { core_num: u32, freq: u32 },
    /// Write `freq` to the upper scaling bound attribute of core `core_num`.
    MaxFreq { core_num: u32, freq: u32 },
}

/// The core a write addresses.
pub open spec fn cmd_core_num(c: WriteCmd) -> u32 {
    match c {
        WriteCmd::Governor { core_num, .. } => core_num,
        WriteCmd::MinFreq { core_num, .. } => core_num,
        WriteCmd::MaxFreq { core_num, .. } => core_num,
    }
}

/// The kind of change a write performs.
pub open spec fn cmd_kind(c: WriteCmd) -> ChangeKind {
    match c {
        WriteCmd::Governor { .. } => ChangeKind::Governor,
        WriteCmd::MinFreq { .. } => ChangeKind::MinFreq,
        WriteCmd::MaxFreq { .. } => ChangeKind::MaxFreq,
    }
}

/// The write addresses this record and proposes a value the record's
/// invariants accept.
pub open spec fn cmd_valid_for(c: WriteCmd, v: CoreView) -> bool {
    match c {
        WriteCmd::Governor { core_num, name } => core_num == v.num && v.governor_ok(name@),
        WriteCmd::MinFreq { core_num, freq } => core_num == v.num && v.min_ok(freq),
        WriteCmd::MaxFreq { core_num, freq } => core_num == v.num && v.max_ok(freq),
    }
}

/// Which core and change failed, and how.
#[derive(Clone, Copy, Debug, PartialEq, Eq, Structural)]
pub struct BatchFailure {
    /// Number of the core whose change failed.
    pub core_num: u32,
    /// Which change failed on it.
    pub change: ChangeKind,
    /// Why: a validation error, or `WriteFailed` for a failed write.
    pub error: CoreError,
}

/// The numbers of the given records, in order.
pub open spec fn view_nums(s: Seq<CoreView>) -> Seq<u32> {
    s.map_values(|c: CoreView| c.num)
}

/// The given core numbers tagged with one change kind.
pub open spec fn tagged(nums: Seq<u32>, k: ChangeKind) -> Seq<(u32, ChangeKind)> {
    nums.map_values(|n: u32| (n, k))
}

/// A write history is phase-ordered: the change kind never steps back, and
/// within one kind the core numbers ascend.
pub open spec fn hist_ordered(h: Seq<(u32, ChangeKind)>) -> bool {
    forall|i: int, j: int|
        0 <= i < j < h.len() ==> kind_rank(h[i].1) < kind_rank(h[j].1) || (h[i].1 == h[j].1
            && h[i].0 <= h[j].0)
}

/// Every write a completed batch over cores with these numbers issues: one
/// write per core for each requested change kind, in phase order, each
/// phase in core order.
pub open spec fn full_history(
    nums: Seq<u32>,
    has_gov: bool,
    has_min: bool,
    has_max: bool,
) -> Seq<(u32, ChangeKind)> {
    (if has_gov {
        tagged(nums, ChangeKind::Governor)
    } else {
        Seq::<(u32, ChangeKind)>::empty()
    }) + (if has_min {
        tagged(nums, ChangeKind::MinFreq)
    } else {
        Seq::<(u32, ChangeKind)>::empty()
    }) + (if has_max {
        tagged(nums, ChangeKind::MaxFreq)
    } else {
        Seq::<(u32, ChangeKind)>::empty()
    })
}

/// The record after one change of the given kind is committed, the pending
/// values being `gov`, `min` and `max`.
pub open spec fn apply_change(
    v: CoreView,
    k: ChangeKind,
    gov: Option<Seq<char>>,
    min: Option<u32>,
    max: Option<u32>,
) -> CoreView {
    match k {
        ChangeKind::Governor => v.with_governor(gov->0),
        ChangeKind::MinFreq => v.with_min(min->0),
        ChangeKind::MaxFreq => v.with_max(max->0),
    }
}

/// The records among `cs` whose number the selection names; a selection of
/// `None` keeps them all.
pub open spec fn selected_views(cs: Seq<CoreView>, sel: Option<Seq<u32>>) -> Seq<CoreView>
    decreases cs.len(),
{
    match sel {
        Option::None => cs,
        Option::Some(nums) => if cs.len() == 0 {
            Seq::<CoreView>::empty()
        } else if nums.contains(cs.last().num) {
            selected_views(cs.drop_last(), sel).push(cs.last())
        } else {
            selected_views(cs.drop_last(), sel)
        },
    }
}

/// The view of an optional selection of core numbers.
pub open spec fn selection_view(sel: Option<Vec<u32>>) -> Option<Seq<u32>> {
    match sel {
        Option::None => Option::None,
        Option::Some(v) => Option::Some(v@),
    }
}

/// A batch of pending changes over a selection of cores, stepped by the
/// caller one write at a time.
pub struct Batch {
    cores: Vec<Core>,
    gov: Option<String>,
    min: Option<u32>,
    max: Option<u32>,
    phase: ChangeKind,
    idx: usize,
    awaiting: bool,
    aborted: bool,
    finished: bool,
    hist: Ghost<Seq<(u32, ChangeKind)>>,
}

impl Batch {
    /// The current settings records of the selected cores, in ascending
    /// number order.
    pub closed spec fn cores_view(self) -> Seq<CoreView> {
        core_views(self.cores@)
    }

    /// The writes issued so far, oldest first: core number and change kind.
    pub closed spec fn history(self) -> Seq<(u32, ChangeKind)> {
        self.hist@
    }

    /// The pending governor change, if any.
    pub closed spec fn pending_gov(self) -> Option<Seq<char>> {
        match self.gov {
            Option::None => Option::None,
            Option::Some(g) => Option::Some(g@),
        }
    }

    /// The pending lower-bound change, if any.
    pub closed spec fn pending_min(self) -> Option<u32> {
        self.min
    }

    /// The pending upper-bound change, if any.
    pub closed spec fn pending_max(self) -> Option<u32> {
        self.max
    }

    /// A write was handed out and its outcome not yet reported.
    pub closed spec fn is_awaiting(self) -> bool {
        self.awaiting
    }

    /// A change failed; the batch issues nothing further.
    pub closed spec fn is_aborted(self) -> bool {
        self.aborted
    }

    /// Every requested write was issued and acknowledged.
    pub closed spec fn is_finished(self) -> bool {
        self.finished
    }

    /// Index of the core the outstanding write addresses.
    pub closed spec fn cur_index(self) -> int {
        self.idx as int
    }

    /// Change kind of the current phase.
    pub closed spec fn cur_kind(self) -> ChangeKind {
        self.phase
    }

    /// Whether a change of this kind is pending.
    pub open spec fn phase_present(self, k: ChangeKind) -> bool {
        match k {
            ChangeKind::Governor => self.pending_gov() is Some,
            ChangeKind::MinFreq => self.pending_min() is Some,
            ChangeKind::MaxFreq => self.pending_max() is Some,
        }
    }

    /// The writes of one whole phase: one per core if the change is
    /// pending, none otherwise.
    pub open spec fn segment(self, k: ChangeKind) -> Seq<(u32, ChangeKind)> {
        if self.phase_present(k) {
            tagged(view_nums(self.cores_view()), k)
        } else {
            Seq::<(u32, ChangeKind)>::empty()
        }
    }

    /// The whole phases that precede phase `k`.
    pub open spec fn phases_before(self, k: ChangeKind) -> Seq<(u32, ChangeKind)> {
        match k {
            ChangeKind::Governor => Seq::<(u32, ChangeKind)>::empty(),
            ChangeKind::MinFreq => self.segment(ChangeKind::Governor),
            ChangeKind::MaxFreq => self.segment(ChangeKind::Governor) + self.segment(
                ChangeKind::MinFreq,
            ),
        }
    }

    /// Number of writes issued in the current phase.
    spec fn issued(self) -> int {
        self.idx + if self.awaiting {
            1int
        } else {
            0int
        }
    }

    /// The machine's invariant. Holds from [`Batch::new`] on and is
    /// preserved by every step.
    pub closed spec fn inv(self) -> bool {
        let len = self.cores@.len() as int;
        let nums = view_nums(self.cores_view());
        &&& self.idx <= len
        &&& sorted_by_num(self.cores_view())
        &&& (forall|i: int| 0 <= i < len ==> (#[trigger] self.cores_view()[i]).wf())
        &&& (self.gov is Some || self.min is Some || self.max is Some)
        &&& hist_ordered(self.hist@)
        &&& !(self.awaiting && self.aborted)
        &&& !(self.awaiting && self.finished)
        &&& !(self.aborted && self.finished)
        &&& (self.awaiting ==> self.idx < len && self.phase_present(self.phase))
        &&& (self.awaiting ==> match self.phase {
            ChangeKind::Governor => self.cores_view()[self.idx as int].governor_ok(
                self.pending_gov()->0,
            ),
            ChangeKind::MinFreq => self.cores_view()[self.idx as int].min_ok(
                self.pending_min()->0,
            ),
            ChangeKind::MaxFreq => self.cores_view()[self.idx as int].max_ok(
                self.pending_max()->0,
            ),
        })
        &&& (self.finished ==> self.hist@ == full_history(
            nums,
            self.pending_gov() is Some,
            self.pending_min() is Some,
            self.pending_max() is Some,
        ))
        &&& (!self.aborted && !self.finished ==> self.hist@ == self.phases_before(self.phase)
            + (if self.phase_present(self.phase) {
                tagged(nums.take(self.issued()), self.phase)
            } else {
                Seq::<(u32, ChangeKind)>::empty()
            }))
        &&& (!self.aborted && !self.finished && !self.phase_present(self.phase) ==> self.idx == 0
            && !self.awaiting)
    }

    /// Start a batch: keep the cores the selection names (all of them when
    /// it is `None`), order them by ascending core number, and queue the
    /// pending changes. Naming no change at all is a usage error.
    pub fn new(
        cores: Vec<Core>,
        selection: Option<Vec<u32>>,
        governor: Option<String>,
        min_freq: Option<u32>,
        max_freq: Option<u32>,
    ) -> (r: Result<Batch, CoreError>)
        requires
            forall|i: int| 0 <= i < cores@.len() ==> (#[trigger] cores@[i])@.wf(),
        ensures
            r is Ok <==> governor is Some || min_freq is Some || max_freq is Some,
            r is Err ==> r->Err_0 == CoreError::NoChangesRequested,
            r is Ok ==> (r->Ok_0).inv() && !(r->Ok_0).is_awaiting() && !(r->Ok_0).is_aborted()
                && !(r->Ok_0).is_finished(),
            r is Ok ==> (r->Ok_0).history() == Seq::<(u32, ChangeKind)>::empty(),
            r is Ok ==> (r->Ok_0).pending_gov() == (match governor {
                Option::None => Option::<Seq<char>>::None,
                Option::Some(g) => Option::Some(g@),
            }) && (r->Ok_0).pending_min() == min_freq && (r->Ok_0).pending_max() == max_freq,
            r is Ok ==> sorted_by_num((r->Ok_0).cores_view()),
            r is Ok ==> (r->Ok_0).cores_view().to_multiset() == selected_views(
                core_views(cores@),
                selection_view(selection),
            ).to_multiset(),
    {
        broadcast use vstd::seq_lib::group_to_multiset_ensures;

        if governor.is_none() && min_freq.is_none() && max_freq.is_none() {
            return Err(CoreError::NoChangesRequested);
        }
        let ghost allv = core_views(cores@);
        let kept = match &selection {
            Option::None => {
                proof {
                    assert(selected_views(allv, selection_view(selection)) == allv);
                }
                cores
            },
            Option::Some(sel) => {
                let mut src = cores;
                let mut kept: Vec<Core> = Vec::new();
                let ghost orig = src@;
                let mut k: usize = 0;
                let n = src.len();
                while k < n
                    invariant
                        k <= n,
                        n == orig.len(),
                        src@ == orig.skip(k as int),
                        core_views(kept@) == selected_views(
                            core_views(orig.take(k as int)),
                            Option::Some(sel@),
                        ),
                    decreases n - k,
                {
                    proof {
                        let pre = core_views(orig.take(k as int));
                        let ext = core_views(orig.take(k + 1));
                        assert(ext.drop_last() =~= pre);
                        assert(ext.last() == orig[k as int]@);
                    }
                    let c = src.remove(0);
                    proof {
                        assert(c == orig[k as int]);
                        assert(orig.skip(k as int).remove(0) =~= orig.skip(k + 1));
                    }
                    if contains_num(sel, c.num) {
                        kept.push(c);
                        proof {
                            assert(core_views(kept@) =~= core_views(kept@.drop_last()).push(
                                orig[k as int]@,
                            ));
                        }
                    }
                    k += 1;
                }
                proof {
                    assert(orig.take(n as int) =~= orig);
                    assert(core_views(orig.take(n as int)) == allv);
                }
                kept
            },
        };
        let ghost keptv = core_views(kept@);
        proof {
            assert(keptv == selected_views(allv, selection_view(selection)));
        }
        let sorted = sort_cores_by_num(kept);
        proof {
            let sortedv = core_views(sorted@);
            lemma_selected_views_wf(allv, selection_view(selection));
            assert forall|i: int| 0 <= i < sortedv.len() implies (#[trigger] sortedv[i]).wf() by {
                assert(sortedv.contains(sortedv[i]));
                assert(sortedv.to_multiset().count(sortedv[i]) > 0);
                assert(keptv.to_multiset().count(sortedv[i]) > 0);
                assert(keptv.contains(sortedv[i]));
                let j = choose|j: int| 0 <= j < keptv.len() && keptv[j] == sortedv[i];
                assert(allv.contains(sortedv[i]));
                let t = choose|t: int| 0 <= t < allv.len() && allv[t] == sortedv[i];
                assert(allv[t].wf());
            }
        }
        let b = Batch {
            cores: sorted,
            gov: governor,
            min: min_freq,
            max: max_freq,
            phase: ChangeKind::Governor,
            idx: 0,
            awaiting: false,
            aborted: false,
            finished: false,
            hist: Ghost(Seq::<(u32, ChangeKind)>::empty()),
        };
        proof {
            let nums = view_nums(b.cores_view());
            assert(b.phases_before(ChangeKind::Governor) + (if b.phase_present(
                ChangeKind::Governor,
            ) {
                tagged(nums.take(0), ChangeKind::Governor)
            } else {
                Seq::<(u32, ChangeKind)>::empty()
            }) =~= Seq::<(u32, ChangeKind)>::empty());
            assert(b.inv());
        }
        Ok(b)
    }
}

/// The write proposes exactly the batch's pending value for its kind.
pub open spec fn cmd_matches_pending(c: WriteCmd, b: Batch) -> bool {
    match c {
        WriteCmd::Governor { name, .. } => b.pending_gov() == Option::Some(name@),
        WriteCmd::MinFreq { freq, .. } => b.pending_min() == Option::Some(freq),
        WriteCmd::MaxFreq { freq, .. } => b.pending_max() == Option::Some(freq),
    }
}

/// The failure names a selected core whose record rejects the pending
/// value of the failed change kind, with the matching validation error.
pub open spec fn failure_explains(f: BatchFailure, b: Batch) -> bool {
    exists|i: int|
        0 <= i < b.cores_view().len() && (#[trigger] b.cores_view()[i]).num == f.core_num
            && (match f.change {
            ChangeKind::Governor => f.error == CoreError::InvalidGovernor && b.pending_gov()
                is Some && !b.cores_view()[i].governor_ok(b.pending_gov()->0),
            ChangeKind::MinFreq => f.error == CoreError::OutOfRange && b.pending_min() is Some
                && !b.cores_view()[i].min_ok(b.pending_min()->0),
            ChangeKind::MaxFreq => f.error == CoreError::OutOfRange && b.pending_max() is Some
                && !b.cores_view()[i].max_ok(b.pending_max()->0),
        })
}

impl Batch {
    /// Every write already issued either belongs to an earlier phase or to
    /// the current one, addressed at a core before the current index.
    proof fn lemma_issued_entries(self)
        requires
            self.inv(),
            !self.is_aborted(),
            !self.is_finished(),
            !self.is_awaiting(),
        ensures
            forall|t: int|
                0 <= t < self.history().len() ==> kind_rank(#[trigger] self.history()[t].1)
                    < kind_rank(self.cur_kind()) || (self.history()[t].1 == self.cur_kind()
                    && exists|j: int|
                    0 <= j < self.cur_index() && self.history()[t].0 == view_nums(
                        self.cores_view(),
                    )[j]),
    {
        let h = self.hist@;
        let p = self.phase;
        let nums = view_nums(self.cores_view());
        let before = self.phases_before(p);
        let cur = if self.phase_present(p) {
            tagged(nums.take(self.issued()), p)
        } else {
            Seq::<(u32, ChangeKind)>::empty()
        };
        assert(h == before + cur);
        assert forall|t: int|
            0 <= t < h.len() implies kind_rank(#[trigger] h[t].1) < kind_rank(p) || (h[t].1 == p
            && exists|j: int| 0 <= j < self.cur_index() && h[t].0 == nums[j]) by {
            if t < before.len() {
                match p {
                    ChangeKind::Governor => {
                    },
                    ChangeKind::MinFreq => {
                        assert(before[t] == tagged(nums, ChangeKind::Governor)[t]);
                        assert(before[t].1 == ChangeKind::Governor);
                    },
                    ChangeKind::MaxFreq => {
                        let sg = self.segment(ChangeKind::Governor);
                        if t < sg.len() {
                            assert(before[t] == sg[t]);
                            assert(before[t].1 == ChangeKind::Governor);
                        } else {
                            assert(before[t] == self.segment(ChangeKind::MinFreq)[t - sg.len()]);
                            assert(before[t].1 == ChangeKind::MinFreq);
                        }
                    },
                }
            } else {
                let u = t - before.len();
                assert(h[t] == cur[u]);
                assert(cur[u] == (nums.take(self.issued())[u], p));
                assert(nums.take(self.issued())[u] == nums[u]);
            }
        }
    }

    /// Validate the current core against the current phase's pending value
    /// and, if it passes, hand out the corresponding write.
    fn issue_current(&mut self) -> (r: Result<WriteCmd, BatchFailure>)
        requires
            old(self).inv(),
            !old(self).is_awaiting(),
            !old(self).is_aborted(),
            !old(self).is_finished(),
            old(self).phase_present(old(self).cur_kind()),
            old(self).cur_index() < old(self).cores_view().len(),
        ensures
            final(self).inv(),
            final(self).cores_view() == old(self).cores_view(),
            final(self).pending_gov() == old(self).pending_gov(),
            final(self).pending_min() == old(self).pending_min(),
            final(self).pending_max() == old(self).pending_max(),
            final(self).cur_kind() == old(self).cur_kind(),
            r is Ok ==> final(self).is_awaiting() && !final(self).is_aborted() && !final(self).is_finished() && final(self).cur_index() == old(self).cur_index() && cmd_valid_for(
                r->Ok_0,
                final(self).cores_view()[final(self).cur_index()],
            ) && cmd_kind(r->Ok_0) == final(self).cur_kind() && cmd_matches_pending(
                r->Ok_0,
                *final(self),
            ) && final(self).history() == old(self).history().push(
                (cmd_core_num(r->Ok_0), cmd_kind(r->Ok_0)),
            ),
            r is Err ==> final(self).is_aborted() && !final(self).is_awaiting() && !final(self).is_finished() && final(self).history() == old(self).history() && failure_explains(
                r->Err_0,
                *final(self),
            ),
    {
        proof {
            old(self).lemma_issued_entries();
        }
        let idx = self.idx;
        let num = self.cores[idx].num;
        let outcome: Result<WriteCmd, CoreError> = match self.phase {
            ChangeKind::Governor => {
                match &self.gov {
                    Option::Some(g) => {
                        match self.cores[idx].validate_governor(g.as_str()) {
                            Ok(_) => Ok(WriteCmd::Governor { core_num: num, name: g.clone() }),
                            Err(e) => Err(e),
                        }
                    },
                    Option::None => vstd::pervasive::unreached(),
                }
            },
            ChangeKind::MinFreq => {
                match self.min {
                    Option::Some(f) => {
                        match self.cores[idx].validate_min(f) {
                            Ok(_) => Ok(WriteCmd::MinFreq { core_num: num, freq: f }),
                            Err(e) => Err(e),
                        }
                    },
                    Option::None => vstd::pervasive::unreached(),
                }
            },
            ChangeKind::MaxFreq => {
                match self.max {
                    Option::Some(f) => {
                        match self.cores[idx].validate_max(f) {
                            Ok(_) => Ok(WriteCmd::MaxFreq { core_num: num, freq: f }),
                            Err(e) => Err(e),
                        }
                    },
                    Option::None => vstd::pervasive::unreached(),
                }
            },
        };
        match outcome {
            Ok(cmd) => {
                self.awaiting = true;
                proof {
                    let nums = view_nums(self.cores_view());
                    assert(cmd_core_num(cmd) == nums[idx as int]);
                    assert forall|t: int|
                        0 <= t < self.hist@.len() implies kind_rank(#[trigger] self.hist@[t].1)
                        < kind_rank(self.phase) || (self.hist@[t].1 == self.phase
                        && self.hist@[t].0 <= nums[idx as int]) by {
                        if self.hist@[t].1 == self.phase && !(kind_rank(self.hist@[t].1)
                            < kind_rank(self.phase)) {
                            let j = choose|j: int|
                                0 <= j < idx && self.hist@[t].0 == nums[j];
                            assert(self.cores_view()[j].num <= self.cores_view()[
                                idx as int
                            ].num);
                        }
                    }
                }
                self.hist = Ghost(self.hist@.push((num, cmd_kind(cmd))));
                proof {
                    let nums = view_nums(self.cores_view());
                    let p = self.phase;
                    assert(nums.take(self.issued()) =~= nums.take(self.issued() - 1).push(
                        nums[idx as int],
                    ));
                    assert(tagged(nums.take(self.issued()), p) =~= tagged(
                        nums.take(self.issued() - 1),
                        p,
                    ).push((nums[idx as int], p)));
                    assert(self.hist@ =~= self.phases_before(p) + tagged(
                        nums.take(self.issued()),
                        p,
                    ));
                    assert(self.inv());
                }
                Ok(cmd)
            },
            Err(e) => {
                self.aborted = true;
                let f = BatchFailure { core_num: num, change: self.phase, error: e };
                proof {
                    assert(self.cores_view()[idx as int].num == f.core_num);
                    assert(failure_explains(f, *self));
                }
                Err(f)
            },
        }
    }
}

impl Batch {
    /// Hand out the next validated write of the batch, or report why none
    /// comes. `Ok(Some(cmd))`: the caller must perform `cmd` and report its
    /// outcome before asking again. `Ok(None)`: every requested write was
    /// issued and acknowledged; the history then holds, for each requested
    /// change kind, one write per selected core — governor writes first,
    /// then lower bounds, then upper bounds, each phase in ascending core
    /// order. `Err`: validation failed on the named core; the batch is
    /// aborted and no record was changed.
    pub fn next_write(&mut self) -> (r: Result<Option<WriteCmd>, BatchFailure>)
        requires
            old(self).inv(),
            !old(self).is_awaiting(),
            !old(self).is_aborted(),
            !old(self).is_finished(),
        ensures
            final(self).inv(),
            final(self).cores_view() == old(self).cores_view(),
            final(self).pending_gov() == old(self).pending_gov(),
            final(self).pending_min() == old(self).pending_min(),
            final(self).pending_max() == old(self).pending_max(),
            r is Ok && r->Ok_0 is Some ==> final(self).is_awaiting() && !final(self).is_aborted()
                && !final(self).is_finished() && 0 <= final(self).cur_index() < final(self).cores_view().len() && cmd_valid_for(
                r->Ok_0->0,
                final(self).cores_view()[final(self).cur_index()],
            ) && cmd_kind(r->Ok_0->0) == final(self).cur_kind() && cmd_matches_pending(
                r->Ok_0->0,
                *final(self),
            ) && final(self).history() == old(self).history().push(
                (cmd_core_num(r->Ok_0->0), cmd_kind(r->Ok_0->0)),
            ),
            r is Ok && r->Ok_0 is None ==> final(self).is_finished() && !final(self).is_awaiting()
                && !final(self).is_aborted() && final(self).history() == old(self).history()
                && final(self).history() == full_history(
                view_nums(final(self).cores_view()),
                final(self).pending_gov() is Some,
                final(self).pending_min() is Some,
                final(self).pending_max() is Some,
            ),
            r is Err ==> final(self).is_aborted() && !final(self).is_awaiting() && !final(self).is_finished() && final(self).history() == old(self).history() && failure_explains(
                r->Err_0,
                *final(self),
            ),
    {
        loop
            invariant
                self.inv(),
                !self.is_awaiting(),
                !self.is_aborted(),
                !self.is_finished(),
                self.cores_view() == old(self).cores_view(),
                self.pending_gov() == old(self).pending_gov(),
                self.pending_min() == old(self).pending_min(),
                self.pending_max() == old(self).pending_max(),
                self.history() == old(self).history(),
            decreases 2 - kind_rank(self.cur_kind()),
        {
            let len = self.cores.len();
            let present = match self.phase {
                ChangeKind::Governor => self.gov.is_some(),
                ChangeKind::MinFreq => self.min.is_some(),
                ChangeKind::MaxFreq => self.max.is_some(),
            };
            if present && self.idx < len {
                return match self.issue_current() {
                    Ok(cmd) => Ok(Some(cmd)),
                    Err(f) => Err(f),
                };
            }
            proof {
                let p = self.phase;
                let nums = view_nums(self.cores_view());
                if self.phase_present(p) {
                    assert(nums.take(self.issued()) =~= nums);
                    assert(tagged(nums.take(self.issued()), p) =~= self.segment(p));
                }
                assert(self.hist@ =~= self.phases_before(p) + self.segment(p));
            }
            match self.phase {
                ChangeKind::Governor => {
                    self.phase = ChangeKind::MinFreq;
                    self.idx = 0;
                    proof {
                        let nums = view_nums(self.cores_view());
                        assert(self.phases_before(ChangeKind::MinFreq) == self.segment(
                            ChangeKind::Governor,
                        ));
                        if self.phase_present(ChangeKind::MinFreq) {
                            assert(tagged(nums.take(0), ChangeKind::MinFreq) =~= Seq::<(
                                u32,
                                ChangeKind,
                            )>::empty());
                        }
                        assert(self.hist@ =~= self.phases_before(ChangeKind::MinFreq) + (
                        if self.phase_present(ChangeKind::MinFreq) {
                            tagged(nums.take(0), ChangeKind::MinFreq)
                        } else {
                            Seq::<(u32, ChangeKind)>::empty()
                        }));
                        assert(self.inv());
                    }
                },
                ChangeKind::MinFreq => {
                    self.phase = ChangeKind::MaxFreq;
                    self.idx = 0;
                    proof {
                        let nums = view_nums(self.cores_view());
                        if self.phase_present(ChangeKind::MaxFreq) {
                            assert(tagged(nums.take(0), ChangeKind::MaxFreq) =~= Seq::<(
                                u32,
                                ChangeKind,
                            )>::empty());
                        }
                        assert(self.hist@ =~= self.phases_before(ChangeKind::MaxFreq) + (
                        if self.phase_present(ChangeKind::MaxFreq) {
                            tagged(nums.take(0), ChangeKind::MaxFreq)
                        } else {
                            Seq::<(u32, ChangeKind)>::empty()
                        }));
                        assert(self.inv());
                    }
                },
                ChangeKind::MaxFreq => {
                    self.finished = true;
                    proof {
                        let nums = view_nums(self.cores_view());
                        assert(self.hist@ =~= full_history(
                            nums,
                            self.pending_gov() is Some,
                            self.pending_min() is Some,
                            self.pending_max() is Some,
                        ));
                        assert(self.inv());
                    }
                    return Ok(None);
                },
            }
        }
    }

    /// Report that the outstanding write was persisted: commit the value to
    /// the addressed record and move on. Second half of write-then-commit.
    pub fn write_succeeded(&mut self)
        requires
            old(self).inv(),
            old(self).is_awaiting(),
        ensures
            final(self).inv(),
            !final(self).is_awaiting(),
            !final(self).is_aborted(),
            !final(self).is_finished(),
            final(self).pending_gov() == old(self).pending_gov(),
            final(self).pending_min() == old(self).pending_min(),
            final(self).pending_max() == old(self).pending_max(),
            final(self).history() == old(self).history(),
            final(self).cores_view() == old(self).cores_view().update(
                old(self).cur_index(),
                apply_change(
                    old(self).cores_view()[old(self).cur_index()],
                    old(self).cur_kind(),
                    old(self).pending_gov(),
                    old(self).pending_min(),
                    old(self).pending_max(),
                ),
            ),
    {
        let ghost oldcores = self.cores@;
        let len = self.cores.len();
        let idx = self.idx;
        let mut c = self.cores.remove(idx);
        match self.phase {
            ChangeKind::Governor => {
                let gs = match &self.gov {
                    Option::Some(g) => g.clone(),
                    Option::None => vstd::pervasive::unreached(),
                };
                c.commit_governor(gs.as_str());
            },
            ChangeKind::MinFreq => {
                let f = match self.min {
                    Option::Some(f) => f,
                    Option::None => vstd::pervasive::unreached(),
                };
                c.commit_min(f);
            },
            ChangeKind::MaxFreq => {
                let f = match self.max {
                    Option::Some(f) => f,
                    Option::None => vstd::pervasive::unreached(),
                };
                c.commit_max(f);
            },
        }
        self.cores.insert(idx, c);
        self.awaiting = false;
        self.idx = idx + 1;
        proof {
            let applied = apply_change(
                core_views(oldcores)[idx as int],
                self.phase,
                self.pending_gov(),
                self.pending_min(),
                self.pending_max(),
            );
            assert(self.cores@ =~= oldcores.update(idx as int, c));
            assert(self.cores_view() =~= core_views(oldcores).update(idx as int, applied));
            assert(view_nums(self.cores_view()) =~= view_nums(core_views(oldcores)));
            let nums = view_nums(self.cores_view());
            let p = self.phase;
            assert(self.phases_before(p) == old(self).phases_before(p));
            assert(self.segment(p) == old(self).segment(p));
            if self.phase_present(p) {
                assert(tagged(nums.take(self.issued()), p) == tagged(
                    view_nums(old(self).cores_view()).take(old(self).issued()),
                    p,
                ));
            }
            assert forall|i: int|
                0 <= i < self.cores@.len() implies (#[trigger] self.cores_view()[i]).wf() by {
                if i != idx as int {
                    assert(self.cores_view()[i] == core_views(oldcores)[i]);
                }
            }
            assert(sorted_by_num(self.cores_view())) by {
                assert(forall|i: int|
                    0 <= i < self.cores_view().len() ==> (#[trigger] self.cores_view()[i]).num
                        == core_views(oldcores)[i].num);
            }
            assert(self.inv());
        }
    }

    /// Report that the outstanding write failed: the addressed record is
    /// left untouched and the batch aborts, issuing nothing further. The
    /// returned failure names the core and change, with `WriteFailed`.
    pub fn write_failed(&mut self) -> (r: BatchFailure)
        requires
            old(self).inv(),
            old(self).is_awaiting(),
        ensures
            final(self).inv(),
            final(self).is_aborted(),
            !final(self).is_awaiting(),
            !final(self).is_finished(),
            final(self).cores_view() == old(self).cores_view(),
            final(self).pending_gov() == old(self).pending_gov(),
            final(self).pending_min() == old(self).pending_min(),
            final(self).pending_max() == old(self).pending_max(),
            final(self).history() == old(self).history(),
            r.error == CoreError::WriteFailed,
            r.change == old(self).cur_kind(),
            r.core_num == old(self).cores_view()[old(self).cur_index()].num,
    {
        let n = self.cores[self.idx].num;
        let k = self.phase;
        self.awaiting = false;
        self.aborted = true;
        BatchFailure { core_num: n, change: k, error: CoreError::WriteFailed }
    }

    /// Hand the records back, reflecting every committed change.
    pub fn into_cores(self) -> (r: Vec<Core>)
        ensures
            core_views(r@) == self.cores_view(),
    {
        self.cores
    }
}

/// Law (batch ordering): the writes a batch issues never step back in
/// phase — every governor write precedes every lower-bound write, which
/// precedes every upper-bound write — and within one phase the core
/// numbers ascend.
pub proof fn lemma_batch_history_ordered(b: &Batch)
    requires
        b.inv(),
    ensures
        hist_ordered(b.history()),
{
}

/// Law (batch completeness): a batch that finished issued exactly the
/// expected writes — for each requested change kind, one write per
/// selected core, the kinds in governor, lower-bound, upper-bound order
/// and each kind's writes in ascending core order.
pub proof fn lemma_batch_history_complete(b: &Batch)
    requires
        b.inv(),
        b.is_finished(),
    ensures
        b.history() == full_history(
            view_nums(b.cores_view()),
            b.pending_gov() is Some,
            b.pending_min() is Some,
            b.pending_max() is Some,
        ),
        hist_ordered(b.history()),
{
}

/// Every record `selected_views` keeps is one of the given records.
proof fn lemma_selected_views_wf(cs: Seq<CoreView>, sel: Option<Seq<u32>>)
    ensures
        forall|i: int|
            0 <= i < selected_views(cs, sel).len() ==> cs.contains(
                #[trigger] selected_views(cs, sel)[i],
            ),
    decreases cs.len(),
{
    match sel {
        Option::None => {
            assert forall|i: int|
                0 <= i < selected_views(cs, sel).len() implies cs.contains(
                #[trigger] selected_views(cs, sel)[i],
            ) by {
                assert(exists|j: int| 0 <= j < cs.len() && cs[j] == cs[i]) by {
                    assert(0 <= i < cs.len() && cs[i] == cs[i]);
                }
            }
        },
        Option::Some(nums) => {
            if cs.len() > 0 {
                lemma_selected_views_wf(cs.drop_last(), sel);
                assert forall|i: int|
                    0 <= i < selected_views(cs, sel).len() implies cs.contains(
                    #[trigger] selected_views(cs, sel)[i],
                ) by {
                    let x = selected_views(cs, sel)[i];
                    if i < selected_views(cs.drop_last(), sel).len() {
                        assert(cs.drop_last().contains(x));
                        let j = choose|j: int|
                            0 <= j < cs.drop_last().len() && cs.drop_last()[j] == x;
                        assert(cs[j] == x);
                    } else {
                        assert(x == cs.last());
                        assert(cs[cs.len() - 1] == x);
                    }
                }
            }
        },
    }
}

/// Whether `x` is among the numbers in `v`.
fn contains_num(v: &Vec<u32>, x: u32) -> (r: bool)
    ensures
        r == v@.contains(x),
{
    let n = v.len();
    let mut i: usize = 0;
    while i < n
        invariant
            i <= n,
            n == v@.len(),
            forall|j: int| 0 <= j < i ==> v@[j] != x,
        decreases n - i,
    {
        if v[i] == x {
            return true;
        }
        i += 1;
    }
    false
}

} // verus!
