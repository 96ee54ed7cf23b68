//! The per-core settings record and its validated mutation operations.
//!
//! A [`Core`] holds the parsed frequency-scaling settings of one CPU core.
//! Every proposed change is validated here against the record's invariants
//! before anything is written to the backing attribute file, and committed
//! to the in-memory record only after the caller reports that the write
//! succeeded (write-then-commit: the record never runs ahead of the host).

use vstd::prelude::*;

use crate::errors::CoreError;
use crate::text::str_eq;
use crate::text::views_of;

verus! {

/// Mathematical model of a [`Core`]: the same settings over sequences of
/// characters instead of heap strings.
#[verifier::ext_equal]
pub ghost struct CoreView {
    /// Number of the core.
    pub num: u32,
    /// Hardware minimum frequency in kHz, immutable.
    pub cpu_min: u32,
    /// Hardware maximum frequency in kHz, immutable.
    pub cpu_max: u32,
    /// Current lower scaling bound in kHz.
    pub scaling_min: u32,
    /// Current upper scaling bound in kHz.
    pub scaling_max: u32,
    /// Currently active governor.
    pub governor: Seq<char>,
    /// Governors the core accepts, in discovery order.
    pub governors: Seq<Seq<char>>,
}

impl CoreView {
    /// The record's invariants: scaling bounds ordered and inside the
    /// hardware bounds, and the active governor among the available ones.
    pub open spec fn wf(self) -> bool {
        &&& self.cpu_min <= self.scaling_min
        &&& self.scaling_min <= self.scaling_max
        &&& self.scaling_max <= self.cpu_max
        &&& self.governors.contains(self.governor)
    }

    /// A proposed lower scaling bound is valid: at least the hardware
    /// minimum and no higher than the current upper bound.
    pub open spec fn min_ok(self, freq: u32) -> bool {
        self.cpu_min <= freq && freq <= self.scaling_max
    }

    /// A proposed upper scaling bound is valid: at least the hardware
    /// minimum and the current lower bound, and no higher than the
    /// hardware maximum.
    pub open spec fn max_ok(self, freq: u32) -> bool {
        self.cpu_min <= freq && self.scaling_min <= freq && freq <= self.cpu_max
    }

    /// A proposed governor is valid: one of the available governors.
    pub open spec fn governor_ok(self, governor: Seq<char>) -> bool {
        self.governors.contains(governor)
    }

    /// The record after committing a new lower scaling bound.
    pub open spec fn with_min(self, freq: u32) -> CoreView {
        CoreView { scaling_min: freq, ..self }
    }

    /// The record after committing a new upper scaling bound.
    pub open spec fn with_max(self, freq: u32) -> CoreView {
        CoreView { scaling_max: freq, ..self }
    }

    /// The record after committing a new governor.
    pub open spec fn with_governor(self, governor: Seq<char>) -> CoreView {
        CoreView { governor: governor, ..self }
    }
}

/// The frequency-scaling settings of a single CPU core, as discovered from
/// its attribute files. Frequencies are in kHz.
#[derive(Clone, Debug)]
pub struct Core {
    /// Number of the core, parsed from its directory name.
    pub num: u32,
    /// Hardware maximum frequency, immutable once discovered.
    pub cpuinfo_max_freq: u32,
    /// Hardware minimum frequency, immutable once discovered.
    pub cpuinfo_min_freq: u32,
    /// Governors this core accepts, immutable once discovered.
    pub scaling_available_governors: Vec<String>,
    /// Current upper scaling bound: the governor may raise the frequency up
    /// to this value.
    pub scaling_max_freq: u32,
    /// Current lower scaling bound: the governor may drop the frequency down
    /// to this value.
    pub scaling_min_freq: u32,
    /// Currently active scaling governor.
    pub scaling_governor: String,
}

impl View for Core {
    type V = CoreView;

    open spec fn view(&self) -> CoreView {
        CoreView {
            num: self.num,
            cpu_min: self.cpuinfo_min_freq,
            cpu_max: self.cpuinfo_max_freq,
            scaling_min: self.scaling_min_freq,
            scaling_max: self.scaling_max_freq,
            governor: self.scaling_governor@,
            governors: views_of(self.scaling_available_governors@),
        }
    }
}

impl Core {
    /// The number of the core.
    pub fn num(&self) -> (r: u32)
        ensures
            r == self@.num,
    {
        self.num
    }

    /// The hardware minimum frequency in kHz.
    pub fn cpu_min(&self) -> (r: u32)
        ensures
            r == self@.cpu_min,
    {
        self.cpuinfo_min_freq
    }

    /// The hardware maximum frequency in kHz.
    pub fn cpu_max(&self) -> (r: u32)
        ensures
            r == self@.cpu_max,
    {
        self.cpuinfo_max_freq
    }

    /// The current lower scaling bound in kHz.
    pub fn curr_min(&self) -> (r: u32)
        ensures
            r == self@.scaling_min,
    {
        self.scaling_min_freq
    }

    /// The current upper scaling bound in kHz.
    pub fn curr_max(&self) -> (r: u32)
        ensures
            r == self@.scaling_max,
    {
        self.scaling_max_freq
    }

    /// The currently active governor.
    pub fn curr_gov(&self) -> (r: &str)
        ensures
            r@ == self@.governor,
    {
        self.scaling_governor.as_str()
    }

    /// The available governors, in discovery order.
    pub fn available_govs(&self) -> (r: &Vec<String>)
        ensures
            views_of(r@) == self@.governors,
    {
        &self.scaling_available_governors
    }

    /// Accept a proposed lower scaling bound only when the hardware minimum
    /// and the current upper bound allow it.
    pub fn validate_min(&self, freq: u32) -> (r: Result<u32, CoreError>)
        ensures
            r is Ok <==> self@.min_ok(freq),
            r is Ok ==> r->Ok_0 == freq,
            r is Err ==> r->Err_0 == CoreError::OutOfRange,
    {
        if self.cpuinfo_min_freq <= freq && freq <= self.scaling_max_freq {
            Ok(freq)
        } else {
            Err(CoreError::OutOfRange)
        }
    }

    /// Accept a proposed upper scaling bound only when the hardware bounds
    /// and the current lower bound allow it.
    pub fn validate_max(&self, freq: u32) -> (r: Result<u32, CoreError>)
        ensures
            r is Ok <==> self@.max_ok(freq),
            r is Ok ==> r->Ok_0 == freq,
            r is Err ==> r->Err_0 == CoreError::OutOfRange,
    {
        if self.cpuinfo_min_freq <= freq && self.scaling_min_freq <= freq
            && freq <= self.cpuinfo_max_freq {
            Ok(freq)
        } else {
            Err(CoreError::OutOfRange)
        }
    }

    /// Accept a proposed governor only when it is one of the available
    /// governors.
    pub fn validate_governor<'a>(&self, governor: &'a str) -> (r: Result<&'a str, CoreError>)
        ensures
            r is Ok <==> self@.governor_ok(governor@),
            r is Ok ==> r->Ok_0@ == governor@,
            r is Err ==> r->Err_0 == CoreError::InvalidGovernor,
    {
        let n = self.scaling_available_governors.len();
        let mut i: usize = 0;
        while i < n
            invariant
                i <= n,
                n == self.scaling_available_governors@.len(),
                forall|j: int| 0 <= j < i ==> self@.governors[j] != governor@,
            decreases n - i,
        {
            if str_eq(self.scaling_available_governors[i].as_str(), governor) {
                proof {
                    assert(self@.governors[i as int] == governor@);
                }
                return Ok(governor);
            }
            i += 1;
        }
        Err(CoreError::InvalidGovernor)
    }

    /// Record that a validated lower scaling bound was persisted to the
    /// backing attribute. Second half of write-then-commit: call only after
    /// the write for `freq` succeeded; on a failed write the record is left
    /// untouched instead.
    pub fn commit_min(&mut self, freq: u32)
        requires
            old(self)@.min_ok(freq),
        ensures
            final(self)@ == old(self)@.with_min(freq),
            old(self)@.wf() ==> final(self)@.wf(),
    {
        self.scaling_min_freq = freq;
        proof {
            assert(self@ =~= old(self)@.with_min(freq));
        }
    }

    /// Record that a validated upper scaling bound was persisted to the
    /// backing attribute. Second half of write-then-commit, as for
    /// [`Core::commit_min`].
    pub fn commit_max(&mut self, freq: u32)
        requires
            old(self)@.max_ok(freq),
        ensures
            final(self)@ == old(self)@.with_max(freq),
            old(self)@.wf() ==> final(self)@.wf(),
    {
        self.scaling_max_freq = freq;
        proof {
            assert(self@ =~= old(self)@.with_max(freq));
        }
    }

    /// Record that a validated governor was persisted to the backing
    /// attribute. Second half of write-then-commit, as for
    /// [`Core::commit_min`].
    pub fn commit_governor(&mut self, governor: &str)
        requires
            old(self)@.governor_ok(governor@),
        ensures
            final(self)@ == old(self)@.with_governor(governor@),
            old(self)@.wf() ==> final(self)@.wf(),
    {
        self.scaling_governor = governor.to_owned();
        proof {
            assert(self@ =~= old(self)@.with_governor(governor@));
        }
    }
}

/// Law: setting the lower scaling bound to its already-committed value is
/// idempotent. The proposal validates, and committing it leaves the record
/// exactly as it was — so a second identical call validates and commits to
/// the same record again.
pub proof fn lemma_set_min_idempotent(c: CoreView, freq: u32)
    requires
        c.wf(),
        c.scaling_min == freq,
    ensures
        c.min_ok(freq),
        c.with_min(freq) == c,
{
    assert(c.with_min(freq) =~= c);
}

/// Law: setting the upper scaling bound to its already-committed value is
/// idempotent, as in [`lemma_set_min_idempotent`].
pub proof fn lemma_set_max_idempotent(c: CoreView, freq: u32)
    requires
        c.wf(),
        c.scaling_max == freq,
    ensures
        c.max_ok(freq),
        c.with_max(freq) == c,
{
    assert(c.with_max(freq) =~= c);
}

/// Law: setting the governor to its already-committed value is idempotent,
/// as in [`lemma_set_min_idempotent`].
pub proof fn lemma_set_governor_idempotent(c: CoreView, governor: Seq<char>)
    requires
        c.wf(),
        c.governor == governor,
    ensures
        c.governor_ok(governor),
        c.with_governor(governor) == c,
{
    assert(c.with_governor(governor) =~= c);
}

} // verus!
