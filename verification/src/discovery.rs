//! Discovery: turn directory names and attribute-file texts into validated
//! [`Core`] records.
//!
//! The caller lists the attribute root, keeps the entries this module
//! selects as cores, reads each core's attribute files, and hands the raw
//! texts here. Everything after the raw reads — selection, parsing,
//! invariant checking — is verified.

use vstd::prelude::*;
use vstd::string::StrSliceExecFns;

use crate::errors::CoreError;
use crate::record::Core;
use crate::record::CoreView;
use crate::text::contains_seq;
use crate::text::contains_string;
use crate::text::decimal_text_ok;
use crate::text::decimal_value;
use crate::text::distinct_seqs;
use crate::text::freq_text_ok;
use crate::text::has_duplicate_string;
use crate::text::matches_at;
use crate::text::occurs_at;
use crate::text::parse_decimal;
use crate::text::parse_freq;
use crate::text::split_space_tokens;
use crate::text::split_tokens;
use crate::text::str_contains;
use crate::text::strip_control_chars;
use crate::text::strip_controls;
use crate::text::views_of;

verus! {

/// A directory entry denotes a core when its name mentions `cpu` but is not
/// one of the core-adjacent metadata directories (`cpuidle`, `cpufreq`).
pub open spec fn core_entry_name(name: Seq<char>) -> bool {
    &&& contains_seq(name, "cpu"@)
    &&& !contains_seq(name, "cpuidle"@)
    &&& !contains_seq(name, "cpufreq"@)
}

/// Whether a directory entry under the attribute root denotes a core.
pub fn is_core_entry(name: &str) -> (r: bool)
    ensures
        r == core_entry_name(name@),
{
    str_contains(name, "cpu") && !str_contains(name, "cpuidle") && !str_contains(name, "cpufreq")
}

/// The entry names that denote cores, in order.
pub open spec fn selected_core_names(names: Seq<Seq<char>>) -> Seq<Seq<char>>
    decreases names.len(),
{
    if names.len() == 0 {
        Seq::<Seq<char>>::empty()
    } else if core_entry_name(names.last()) {
        selected_core_names(names.drop_last()).push(names.last())
    } else {
        selected_core_names(names.drop_last())
    }
}

/// Keep exactly the entry names that denote cores, in order.
pub fn select_core_entries(names: &Vec<String>) -> (r: Vec<String>)
    ensures
        views_of(r@) == selected_core_names(views_of(names@)),
{
    let n = names.len();
    let mut out: Vec<String> = Vec::new();
    let mut i: usize = 0;
    while i < n
        invariant
            i <= n,
            n == names@.len(),
            views_of(out@) == selected_core_names(views_of(names@).subrange(0, i as int)),
        decreases n - i,
    {
        proof {
            let pre = views_of(names@).subrange(0, i as int);
            let ext = views_of(names@).subrange(0, i + 1);
            assert(ext.drop_last() =~= pre);
            assert(ext.last() == names@[i as int]@);
        }
        if is_core_entry(names[i].as_str()) {
            out.push(names[i].clone());
            proof {
                assert(views_of(out@) =~= views_of(out@.drop_last()).push(names@[i as int]@));
            }
        }
        i += 1;
    }
    proof {
        assert(views_of(names@).subrange(0, n as int) =~= views_of(names@));
    }
    out
}

/// `cpu` occurs in `s` starting at position `i`.
pub open spec fn cpu_at(s: Seq<char>, i: int) -> bool {
    occurs_at(s, "cpu"@, i)
}

/// The characters of `s` after its last occurrence of `cpu`.
pub open spec fn after_last_cpu(s: Seq<char>) -> Seq<char> {
    let i = choose|i: int| cpu_at(s, i) && (forall|j: int| j > i ==> !cpu_at(s, j));
    s.subrange(i + 3, s.len() as int)
}

/// A name yields a core number when `cpu` occurs in it and what follows the
/// last occurrence is a well-formed digit text.
pub open spec fn core_name_ok(s: Seq<char>) -> bool {
    &&& exists|i: int| cpu_at(s, i)
    &&& decimal_text_ok(after_last_cpu(s))
}

/// The core number a name denotes.
pub open spec fn core_number_of(s: Seq<char>) -> nat {
    decimal_value(after_last_cpu(s))
}

/// Position of the last occurrence of `cpu` in `name`, if any.
fn find_last_cpu(name: &str) -> (r: Option<usize>)
    ensures
        r is Some ==> cpu_at(name@, r->0 as int) && (forall|j: int|
            j > r->0 ==> !cpu_at(name@, j)),
        r is None ==> forall|j: int| !cpu_at(name@, j),
{
    proof {
        reveal_strlit("cpu");
    }
    let n = name.unicode_len();
    if n < 3 {
        return None;
    }
    let mut best: Option<usize> = None;
    let mut i: usize = 0;
    while i < n - 2
        invariant
            i <= n - 2,
            n >= 3,
            n == name@.len(),
            "cpu"@.len() == 3,
            best is Some ==> best->0 < i && cpu_at(name@, best->0 as int) && (forall|j: int|
                best->0 < j < i ==> !cpu_at(name@, j)),
            best is None ==> forall|j: int| 0 <= j < i ==> !cpu_at(name@, j),
        decreases n - i,
    {
        if matches_at(name, "cpu", i) {
            best = Some(i);
        }
        i += 1;
    }
    proof {
        assert(forall|j: int| j > n - 3 ==> !cpu_at(name@, j));
    }
    best
}

/// Parse the core number out of a directory name: the decimal text after
/// the last occurrence of `cpu` in the name.
pub fn core_number_from_name(name: &str) -> (r: Result<u32, CoreError>)
    ensures
        r is Ok <==> core_name_ok(name@),
        r is Ok ==> r->Ok_0 as nat == core_number_of(name@),
        r is Err ==> r->Err_0 == CoreError::MalformedAttribute,
{
    proof {
        reveal_strlit("cpu");
    }
    match find_last_cpu(name) {
        None => Err(CoreError::MalformedAttribute),
        Some(idx) => {
            let n = name.unicode_len();
            proof {
                let i0 = choose|i: int| cpu_at(name@, i) && (forall|j: int|
                    j > i ==> !cpu_at(name@, j));
                if i0 != idx as int {
                    assert(!cpu_at(name@, if i0 < idx as int { idx as int } else { i0 }));
                }
                assert(after_last_cpu(name@) == name@.subrange(idx + 3, name@.len() as int));
            }
            let suffix = name.substring_char(idx + 3, n);
            parse_decimal(suffix)
        },
    }
}

/// The record that the seven attribute texts of one core denote.
pub open spec fn core_view_of_texts(
    name: Seq<char>,
    cpuinfo_min: Seq<char>,
    cpuinfo_max: Seq<char>,
    scaling_min: Seq<char>,
    scaling_max: Seq<char>,
    governor: Seq<char>,
    available: Seq<char>,
) -> CoreView {
    CoreView {
        num: core_number_of(name) as u32,
        cpu_min: decimal_value(strip_controls(cpuinfo_min)) as u32,
        cpu_max: decimal_value(strip_controls(cpuinfo_max)) as u32,
        scaling_min: decimal_value(strip_controls(scaling_min)) as u32,
        scaling_max: decimal_value(strip_controls(scaling_max)) as u32,
        governor: strip_controls(governor),
        governors: split_tokens(strip_controls(available)),
    }
}

/// The attribute texts of one core are acceptable: the name yields a core
/// number, the four frequencies are well-formed digit texts, the available
/// governors are distinct, and the denoted record satisfies the core
/// invariants (ordered bounds, active governor available).
pub open spec fn core_texts_ok(
    name: Seq<char>,
    cpuinfo_min: Seq<char>,
    cpuinfo_max: Seq<char>,
    scaling_min: Seq<char>,
    scaling_max: Seq<char>,
    governor: Seq<char>,
    available: Seq<char>,
) -> bool {
    &&& core_name_ok(name)
    &&& freq_text_ok(cpuinfo_min)
    &&& freq_text_ok(cpuinfo_max)
    &&& freq_text_ok(scaling_min)
    &&& freq_text_ok(scaling_max)
    &&& distinct_seqs(split_tokens(strip_controls(available)))
    &&& core_view_of_texts(
        name,
        cpuinfo_min,
        cpuinfo_max,
        scaling_min,
        scaling_max,
        governor,
        available,
    ).wf()
}

impl Core {
    /// Build the settings record of one core from the raw texts of its
    /// attribute files. Rejects, with `MalformedAttribute`, any text that
    /// does not parse strictly and any combination of parsed values that
    /// breaks the record's invariants, so that every record this returns is
    /// well formed.
    pub fn discover(
        name: &str,
        cpuinfo_min: &str,
        cpuinfo_max: &str,
        scaling_min: &str,
        scaling_max: &str,
        governor: &str,
        available: &str,
    ) -> (r: Result<Core, CoreError>)
        ensures
            r is Ok <==> core_texts_ok(
                name@,
                cpuinfo_min@,
                cpuinfo_max@,
                scaling_min@,
                scaling_max@,
                governor@,
                available@,
            ),
            r is Ok ==> r->Ok_0@ == core_view_of_texts(
                name@,
                cpuinfo_min@,
                cpuinfo_max@,
                scaling_min@,
                scaling_max@,
                governor@,
                available@,
            ) && r->Ok_0@.wf(),
            r is Err ==> r->Err_0 == CoreError::MalformedAttribute,
    {
        let num = match core_number_from_name(name) {
            Ok(v) => v,
            Err(e) => {
                return Err(e);
            },
        };
        let cpu_min = match parse_freq(cpuinfo_min) {
            Ok(v) => v,
            Err(e) => {
                return Err(e);
            },
        };
        let cpu_max = match parse_freq(cpuinfo_max) {
            Ok(v) => v,
            Err(e) => {
                return Err(e);
            },
        };
        let s_min = match parse_freq(scaling_min) {
            Ok(v) => v,
            Err(e) => {
                return Err(e);
            },
        };
        let s_max = match parse_freq(scaling_max) {
            Ok(v) => v,
            Err(e) => {
                return Err(e);
            },
        };
        let gov = strip_control_chars(governor);
        let stripped_avail = strip_control_chars(available);
        let govs = split_space_tokens(stripped_avail.as_str());
        if has_duplicate_string(&govs) {
            return Err(CoreError::MalformedAttribute);
        }
        if !(cpu_min <= s_min && s_min <= s_max && s_max <= cpu_max) {
            return Err(CoreError::MalformedAttribute);
        }
        if !contains_string(&govs, gov.as_str()) {
            return Err(CoreError::MalformedAttribute);
        }
        let core = Core {
            num,
            cpuinfo_max_freq: cpu_max,
            cpuinfo_min_freq: cpu_min,
            scaling_available_governors: govs,
            scaling_max_freq: s_max,
            scaling_min_freq: s_min,
            scaling_governor: gov,
        };
        proof {
            assert(core@ =~= core_view_of_texts(
                name@,
                cpuinfo_min@,
                cpuinfo_max@,
                scaling_min@,
                scaling_max@,
                governor@,
                available@,
            ));
        }
        Ok(core)
    }
}

/// The raw attribute texts of one candidate core directory, as read by the
/// caller: the directory's name and the contents of its six attribute
/// files.
pub struct CoreEntry {
    /// Name of the core directory.
    pub name: String,
    /// Text of the hardware minimum frequency attribute.
    pub cpuinfo_min_freq: String,
    /// Text of the hardware maximum frequency attribute.
    pub cpuinfo_max_freq: String,
    /// Text of the current lower scaling bound attribute.
    pub scaling_min_freq: String,
    /// Text of the current upper scaling bound attribute.
    pub scaling_max_freq: String,
    /// Text of the active governor attribute.
    pub scaling_governor: String,
    /// Text of the available governors attribute.
    pub scaling_available_governors: String,
}

/// The attribute texts of this entry are acceptable.
pub open spec fn entry_ok(e: CoreEntry) -> bool {
    core_texts_ok(
        e.name@,
        e.cpuinfo_min_freq@,
        e.cpuinfo_max_freq@,
        e.scaling_min_freq@,
        e.scaling_max_freq@,
        e.scaling_governor@,
        e.scaling_available_governors@,
    )
}

/// The record this entry denotes.
pub open spec fn core_of_entry(e: CoreEntry) -> CoreView {
    core_view_of_texts(
        e.name@,
        e.cpuinfo_min_freq@,
        e.cpuinfo_max_freq@,
        e.scaling_min_freq@,
        e.scaling_max_freq@,
        e.scaling_governor@,
        e.scaling_available_governors@,
    )
}

/// No two entries denote the same core number.
pub open spec fn entry_nums_distinct(es: Seq<CoreEntry>) -> bool {
    forall|i: int, j: int|
        0 <= i < j < es.len() ==> core_of_entry(es[i]).num != core_of_entry(es[j]).num
}

/// Build one settings record per discovered core directory, all-or-nothing:
/// any entry that does not parse, breaks a record invariant, or repeats a
/// core number fails the whole discovery, and no partial result is
/// returned. On success the records are in entry order, each well formed,
/// and their core numbers are distinct.
#[verifier::rlimit(60)]
pub fn discover_cores(entries: &Vec<CoreEntry>) -> (r: Result<Vec<Core>, CoreError>)
    ensures
        r is Ok <==> (forall|i: int|
            0 <= i < entries@.len() ==> entry_ok(#[trigger] entries@[i])) && entry_nums_distinct(
            entries@,
        ),
        r is Ok ==> r->Ok_0@.len() == entries@.len() && (forall|i: int|
            0 <= i < entries@.len() ==> (#[trigger] r->Ok_0@[i])@ == core_of_entry(entries@[i])
                && r->Ok_0@[i]@.wf()),
        r is Ok ==> forall|i: int, j: int|
            0 <= i < j < r->Ok_0@.len() ==> (#[trigger] r->Ok_0@[i])@.num != (
            #[trigger] r->Ok_0@[j])@.num,
        r is Err ==> r->Err_0 == CoreError::MalformedAttribute,
{
    let n = entries.len();
    let mut cores: Vec<Core> = Vec::new();
    let mut i: usize = 0;
    while i < n
        invariant
            i <= n,
            n == entries@.len(),
            cores@.len() == i,
            forall|j: int| 0 <= j < i ==> entry_ok(#[trigger] entries@[j]),
            forall|j: int|
                0 <= j < i ==> (#[trigger] cores@[j])@ == core_of_entry(entries@[j])
                    && cores@[j]@.wf(),
        decreases n - i,
    {
        let e = &entries[i];
        let core = match Core::discover(
            e.name.as_str(),
            e.cpuinfo_min_freq.as_str(),
            e.cpuinfo_max_freq.as_str(),
            e.scaling_min_freq.as_str(),
            e.scaling_max_freq.as_str(),
            e.scaling_governor.as_str(),
            e.scaling_available_governors.as_str(),
        ) {
            Ok(c) => c,
            Err(e) => {
                return Err(e);
            },
        };
        cores.push(core);
        i += 1;
    }
    let mut a: usize = 0;
    while a < n
        invariant
            a <= n,
            n == entries@.len(),
            cores@.len() == n,
            forall|j: int| 0 <= j < n ==> entry_ok(#[trigger] entries@[j]),
            forall|j: int|
                0 <= j < n ==> (#[trigger] cores@[j])@ == core_of_entry(entries@[j])
                    && cores@[j]@.wf(),
            forall|x: int, y: int|
                0 <= x < y < n && x < a ==> core_of_entry(entries@[x]).num != core_of_entry(
                    entries@[y],
                ).num,
        decreases n - a,
    {
        let mut b: usize = a + 1;
        while b < n
            invariant
                a < b <= n,
                n == entries@.len(),
                cores@.len() == n,
                forall|j: int|
                    0 <= j < n ==> (#[trigger] cores@[j])@ == core_of_entry(entries@[j]),
                forall|y: int|
                    a < y < b ==> core_of_entry(entries@[a as int]).num != core_of_entry(
                        entries@[y],
                    ).num,
            decreases n - b,
        {
            if cores[a].num == cores[b].num {
                return Err(CoreError::MalformedAttribute);
            }
            b += 1;
        }
        a += 1;
    }
    Ok(cores)
}

/// The numbers of the records that do not list `g` among their available
/// governors, in order.
pub open spec fn nums_missing_governor(cs: Seq<CoreView>, g: Seq<char>) -> Seq<u32>
    decreases cs.len(),
{
    if cs.len() == 0 {
        Seq::<u32>::empty()
    } else if !cs.last().governor_ok(g) {
        nums_missing_governor(cs.drop_last(), g).push(cs.last().num)
    } else {
        nums_missing_governor(cs.drop_last(), g)
    }
}

/// The numbers of the cores that do not accept the given governor, in
/// order. Empty exactly when every core accepts it.
pub fn cores_missing_governor(cores: &Vec<Core>, governor: &str) -> (r: Vec<u32>)
    ensures
        r@ == nums_missing_governor(core_views(cores@), governor@),
{
    let n = cores.len();
    let mut out: Vec<u32> = Vec::new();
    let mut i: usize = 0;
    while i < n
        invariant
            i <= n,
            n == cores@.len(),
            out@ == nums_missing_governor(core_views(cores@).take(i as int), governor@),
        decreases n - i,
    {
        proof {
            let pre = core_views(cores@).take(i as int);
            let ext = core_views(cores@).take(i + 1);
            assert(ext.drop_last() =~= pre);
            assert(ext.last() == cores@[i as int]@);
        }
        if cores[i].validate_governor(governor).is_err() {
            out.push(cores[i].num);
        }
        i += 1;
    }
    proof {
        assert(core_views(cores@).take(n as int) =~= core_views(cores@));
    }
    out
}

/// The views of the cores in `s`, in order.
pub open spec fn core_views(s: Seq<Core>) -> Seq<CoreView> {
    s.map_values(|c: Core| c@)
}

/// The records are in ascending order of core number.
pub open spec fn sorted_by_num(s: Seq<CoreView>) -> bool {
    forall|i: int, j: int| 0 <= i <= j < s.len() ==> s[i].num <= s[j].num
}

/// Order cores by ascending core number. The result holds exactly the
/// given records — the multiset of their views is unchanged — in ascending
/// order of core number.
pub fn sort_cores_by_num(cores: Vec<Core>) -> (r: Vec<Core>)
    ensures
        sorted_by_num(core_views(r@)),
        core_views(r@).to_multiset() == core_views(cores@).to_multiset(),
        r@.len() == cores@.len(),
{
    broadcast use vstd::seq_lib::group_to_multiset_ensures;
    broadcast use vstd::multiset::group_multiset_axioms;
    broadcast use vstd::multiset::lemma_multiset_empty_len;

    let ghost total = core_views(cores@).to_multiset();
    let ghost n0 = cores@.len();
    let mut src = cores;
    let mut out: Vec<Core> = Vec::new();
    proof {
        assert(core_views(out@).to_multiset().len() == 0);
        assert(core_views(out@).to_multiset().add(core_views(src@).to_multiset()) =~= total);
    }
    while src.len() > 0
        invariant
            sorted_by_num(core_views(out@)),
            forall|i: int, j: int|
                0 <= i < out@.len() && 0 <= j < src@.len() ==> core_views(out@)[i].num
                    <= core_views(src@)[j].num,
            core_views(out@).to_multiset().add(core_views(src@).to_multiset()) == total,
            out@.len() + src@.len() == n0,
        decreases src.len(),
    {
        let mut m: usize = 0;
        let mut k: usize = 1;
        while k < src.len()
            invariant
                m < k <= src@.len(),
                forall|j: int| 0 <= j < k ==> src@[m as int]@.num <= (#[trigger] src@[j])@.num,
            decreases src@.len() - k,
        {
            if src[k].num < src[m].num {
                m = k;
            }
            k += 1;
        }
        let ghost old_src = src@;
        let ghost old_out = out@;
        let c = src.remove(m);
        out.push(c);
        proof {
            broadcast use vstd::seq_lib::group_to_multiset_ensures;

            let v = old_src[m as int]@;
            assert(core_views(old_out.push(c)) =~= core_views(old_out).push(v));
            assert(core_views(old_src.remove(m as int)) =~= core_views(old_src).remove(m as int));
            assert(core_views(old_src)[m as int] == v);
            assert(core_views(src@).to_multiset() =~= core_views(old_src).to_multiset().remove(v));
            assert(core_views(old_src).to_multiset().count(v) > 0);
            assert(core_views(out@).to_multiset().add(core_views(src@).to_multiset()) =~= core_views(
                old_out,
            ).to_multiset().add(core_views(old_src).to_multiset()));
            assert(forall|j: int|
                0 <= j < src@.len() ==> src@[j] == old_src[j] || src@[j] == old_src[j + 1]);
        }
    }
    proof {
        assert(core_views(src@).to_multiset().len() == 0);
        assert(core_views(out@).to_multiset() =~= total);
    }
    out
}

} // verus!
